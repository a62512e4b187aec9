use g3_core::history::{
    completed_requirements_filename, completed_requirements_filename_at, completed_todo_filename,
    completed_todo_filename_at, format_timestamp, format_timestamp_for_filename, history_entry,
    write_attempting_recovery, write_completed_requirements, write_git_commit, write_git_head,
    write_refining_requirements, write_skipped_recovery, write_start_implementing, HistoryEntry,
};

#[test]
fn test_format_timestamp() {
    let ts = format_timestamp();
    // Should be in format YYYY-MM-DD HH:MM:SS
    assert_eq!(ts.len(), 19);
    assert_eq!(&ts[4..5], "-");
    assert_eq!(&ts[7..8], "-");
    assert_eq!(&ts[10..11], " ");
    assert_eq!(&ts[13..14], ":");
    assert_eq!(&ts[16..17], ":");
}

#[test]
fn test_format_timestamp_for_filename() {
    let ts = format_timestamp_for_filename();
    // Should be in format YYYY-MM-DD_HH-MM-SS
    assert_eq!(ts.len(), 19);
    assert_eq!(&ts[4..5], "-");
    assert_eq!(&ts[7..8], "-");
    assert_eq!(&ts[10..11], "_");
    assert_eq!(&ts[13..14], "-");
    assert_eq!(&ts[16..17], "-");
    // Should not contain colons (filesystem-safe)
    assert!(!ts.contains(':'));
}

#[test]
fn test_write_entries() {
    let mut content = String::new();

    content.push_str(&write_refining_requirements());
    content.push_str(&write_git_head("abc123def456"));
    content.push_str(&write_start_implementing("Test summary line 1\nTest summary line 2"));
    content.push_str(&write_attempting_recovery());
    content.push_str(&write_completed_requirements(
        "completed_requirements_2025-01-01_12-00-00.md",
        "completed_todo_2025-01-01_12-00-00.md",
    ));
    content.push_str(&write_git_commit("Add feature X"));

    assert!(content.contains("REFINING REQUIREMENTS"));
    assert!(content.contains("GIT HEAD (abc123def456)"));
    assert!(content.contains("START IMPLEMENTING"));
    assert!(content.contains("Test summary line 1"));
    assert!(content.contains("ATTEMPTING RECOVERY"));
    assert!(content.contains("COMPLETED REQUIREMENTS"));
    assert!(content.contains("GIT COMMIT"));
}

#[test]
fn test_completed_filenames() {
    let req_file = completed_requirements_filename();
    let todo_file = completed_todo_filename();

    assert!(req_file.starts_with("completed_requirements_"));
    assert!(req_file.ends_with(".md"));
    assert!(todo_file.starts_with("completed_todo_"));
    assert!(todo_file.ends_with(".md"));

    // Should not contain colons
    assert!(!req_file.contains(':'));
    assert!(!todo_file.contains(':'));
}

#[test]
fn history_entries_are_exact() {
    let ts = "2025-01-02 03:04:05";
    assert_eq!(
        history_entry(ts, &HistoryEntry::RefiningRequirements),
        "2025-01-02 03:04:05 - REFINING REQUIREMENTS (new_requirements.md)\n"
    );
    assert_eq!(
        history_entry(ts, &HistoryEntry::GitHead { sha: "abc123".to_string() }),
        "2025-01-02 03:04:05 - GIT HEAD (abc123)\n"
    );
    assert_eq!(
        history_entry(ts, &HistoryEntry::AttemptingRecovery),
        "2025-01-02 03:04:05   ATTEMPTING RECOVERY\n"
    );
    assert_eq!(
        history_entry(ts, &HistoryEntry::SkippedRecovery),
        "2025-01-02 03:04:05  USER SKIPPED RECOVERY\n"
    );
    assert_eq!(
        history_entry(
            ts,
            &HistoryEntry::CompletedRequirements {
                requirements_file: "completed_requirements_2025-01-01_12-00-00.md".to_string(),
                todo_file: "completed_todo_2025-01-01_12-00-00.md".to_string(),
            }
        ),
        "2025-01-02 03:04:05 - COMPLETED REQUIREMENTS (completed_requirements_2025-01-01_12-00-00.md, completed_todo_2025-01-01_12-00-00.md)\n"
    );
    assert_eq!(
        history_entry(ts, &HistoryEntry::GitCommit { message: "Add feature X".to_string() }),
        "2025-01-02 03:04:05 - GIT COMMIT (Add feature X)\n"
    );
}

#[test]
fn start_implementing_holds_the_indented_summary_block() {
    let entry = history_entry(
        "2025-01-02 03:04:05",
        &HistoryEntry::StartImplementing { summary: "line 1\r\nline 2\n\nline 4\n".to_string() },
    );
    assert_eq!(
        entry,
        "2025-01-02 03:04:05 - START IMPLEMENTING (current_requirements.md)\n<<\n  line 1\n  line 2\n  \n  line 4\n>>\n"
    );
    let empty = history_entry(
        "T",
        &HistoryEntry::StartImplementing { summary: String::new() },
    );
    assert_eq!(empty, "T - START IMPLEMENTING (current_requirements.md)\n<<\n\n>>\n");
}

#[test]
fn git_commit_entry_truncates_long_summaries() {
    let seventy_two = "a".repeat(72);
    assert_eq!(
        history_entry("T", &HistoryEntry::GitCommit { message: seventy_two.clone() }),
        format!("T - GIT COMMIT ({})\n", seventy_two)
    );
    let seventy_three = "b".repeat(73);
    assert_eq!(
        history_entry("T", &HistoryEntry::GitCommit { message: seventy_three }),
        format!("T - GIT COMMIT ({}...)\n", "b".repeat(69))
    );
    let accented = "é".repeat(80);
    assert_eq!(
        history_entry("T", &HistoryEntry::GitCommit { message: accented }),
        format!("T - GIT COMMIT ({}...)\n", "é".repeat(69))
    );
}

#[test]
fn written_entries_begin_with_a_timestamp_and_end_with_a_line_feed() {
    for entry in [
        write_refining_requirements(),
        write_git_head("abc"),
        write_start_implementing("s"),
        write_attempting_recovery(),
        write_skipped_recovery(),
        write_completed_requirements("r.md", "t.md"),
        write_git_commit("m"),
    ] {
        assert!(entry.ends_with('\n'));
        assert_eq!(&entry[4..5], "-");
        assert_eq!(&entry[13..14], ":");
        assert!(!entry[..entry.len() - 1].contains('\n') || entry.contains("\n<<\n"));
    }
    assert!(write_skipped_recovery().ends_with("  USER SKIPPED RECOVERY\n"));
    assert!(write_git_head("abc").ends_with(" - GIT HEAD (abc)\n"));
}

#[test]
fn completed_filenames_are_exact() {
    assert_eq!(
        completed_requirements_filename_at("2025-01-01_12-00-00"),
        "completed_requirements_2025-01-01_12-00-00.md"
    );
    assert_eq!(
        completed_todo_filename_at("2025-01-01_12-00-00"),
        "completed_todo_2025-01-01_12-00-00.md"
    );
    assert_eq!(completed_requirements_filename().len(), "completed_requirements_".len() + 19 + 3);
}

fn number(text: &str) -> u32 {
    assert!(text.len() == 2 && text.chars().all(|c| c.is_ascii_digit()), "{:?}", text);
    text.parse().unwrap()
}

fn assert_is_time(stamp: &str, date_end: char, time_sep: char) {
    assert!(stamp.is_ascii());
    assert!(stamp.len() >= 19, "{:?}", stamp);
    let (year, rest) = stamp.split_at(stamp.len() - 15);
    let digits = year.trim_start_matches(|c| c == '+' || c == '-');
    assert!(digits.len() >= 4 && digits.chars().all(|c| c.is_ascii_digit()), "{:?}", stamp);
    assert!(year.len() - digits.len() <= 1, "{:?}", stamp);
    assert_eq!(year.len() == 4, year == digits);
    let at = |i: usize| rest.as_bytes()[i] as char;
    assert_eq!((at(0), at(3), at(6), at(9), at(12)), ('-', '-', date_end, time_sep, time_sep));
    assert!((1..=12).contains(&number(&rest[1..3])));
    assert!((1..=31).contains(&number(&rest[4..6])));
    assert!(number(&rest[7..9]) <= 23);
    assert!(number(&rest[10..12]) <= 59);
    assert!(number(&rest[13..15]) <= 60);
}

#[test]
fn timestamps_have_the_shape_of_their_form() {
    assert_is_time(&format_timestamp(), ' ', ':');
    assert_is_time(&format_timestamp_for_filename(), '_', '-');
    let entry = write_attempting_recovery();
    assert_is_time(entry.strip_suffix("   ATTEMPTING RECOVERY\n").unwrap(), ' ', ':');
    let name = completed_todo_filename();
    let stamp = name.strip_prefix("completed_todo_").unwrap().strip_suffix(".md").unwrap();
    assert_is_time(stamp, '_', '-');
    assert!(!name.contains(':') && !name.contains('/') && !name.contains(' '));
}
