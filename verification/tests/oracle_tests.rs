//! Each test here states a rule a second time, with the string functions of
//! the standard library, and holds the library to it on some ten thousand
//! generated inputs.

use g3_core::diff::{apply_unified_diff_to_string, parse_unified_diff_hunks};
use g3_core::git::{check_dirty_files, should_exclude, DirtyFiles};
use g3_core::quoting::{
    fix_mixed_quotes_in_json, fix_nested_quotes_in_shell_command, shell_escape_command,
};

/// A small generator of numbers that gives the same run every time.
struct Numbers(u64);

impl Numbers {
    fn next(&mut self) -> u64 {
        self.0 = self.0.wrapping_mul(6364136223846793005).wrapping_add(1442695040888963407);
        self.0 >> 33
    }

    fn below(&mut self, n: usize) -> usize {
        (self.next() % n as u64) as usize
    }

    /// A text of up to `max` pieces drawn from `pieces`.
    fn text(&mut self, pieces: &[&str], max: usize) -> String {
        let n = self.below(max + 1);
        let mut out = String::new();
        for _ in 0..n {
            out.push_str(pieces[self.below(pieces.len())]);
        }
        out
    }
}

fn hunks_by_std(diff: &str) -> Vec<(String, String)> {
    let mut hunks: Vec<(String, String)> = Vec::new();
    let mut old_lines: Vec<String> = Vec::new();
    let mut new_lines: Vec<String> = Vec::new();
    let mut in_hunk = false;
    for line in diff.lines() {
        if line.starts_with("diff ")
            || line.starts_with("index ")
            || line.starts_with("new file mode")
            || line.starts_with("deleted file mode")
            || line.starts_with("--- ")
            || line.starts_with("+++ ")
        {
            continue;
        }
        if line.starts_with("@@") {
            if in_hunk && (!old_lines.is_empty() || !new_lines.is_empty()) {
                hunks.push((old_lines.join("\n"), new_lines.join("\n")));
                old_lines.clear();
                new_lines.clear();
            }
            in_hunk = true;
            continue;
        }
        let removed = line.starts_with('-') && !line.starts_with("---");
        let added = line.starts_with('+') && !line.starts_with("+++");
        if !in_hunk {
            if line.starts_with(' ') || removed || added {
                in_hunk = true;
            } else {
                continue;
            }
        }
        if let Some(content) = line.strip_prefix(' ') {
            old_lines.push(content.to_string());
            new_lines.push(content.to_string());
        } else if added {
            new_lines.push(line[1..].to_string());
        } else if removed {
            old_lines.push(line[1..].to_string());
        }
    }
    if in_hunk && (!old_lines.is_empty() || !new_lines.is_empty()) {
        hunks.push((old_lines.join("\n"), new_lines.join("\n")));
    }
    hunks
}

const DIFF_PIECES: [&str; 24] = [
    "\n", "\n", "\n", "\r\n", "\r", " ", "+", "-", "@@", "\\", "a", "b", "é", "diff ", "index ",
    "--- ", "+++ ", "---", "+++", "new file mode", "deleted file mode", "--", "++", "x y",
];

#[test]
fn parsing_agrees_with_the_standard_library() {
    let mut numbers = Numbers(1);
    for _ in 0..20000 {
        let diff = numbers.text(&DIFF_PIECES, 14);
        assert_eq!(parse_unified_diff_hunks(&diff), hunks_by_std(&diff), "{:?}", diff);
    }
}

/// The diff applied with the standard library's search and replacement, for
/// offsets that lie on character boundaries.
fn applied_by_std(content: &str, diff: &str, start: usize, end: usize) -> Option<String> {
    let hunks = hunks_by_std(diff);
    let norm = content.replace("\r\n", "\n").replace('\r', "\n");
    if hunks.is_empty() || start > end || end > norm.len() {
        return None;
    }
    let mut region = norm[start..end].to_string();
    for (old_block, new_block) in &hunks {
        let pos = region.find(old_block.as_str())?;
        region.replace_range(pos..pos + old_block.len(), new_block);
    }
    Some(format!("{}{}{}", &norm[..start], region, &norm[end..]))
}

#[test]
fn applying_agrees_with_the_standard_library() {
    let content_pieces = ["a", "b", "é", "日", "\n", "\n", "\r\n", "\r", "ab", "ba", " "];
    let diff_pieces = ["\n", "\n", "\n", " ", "+", "-", "@@", "a", "b", "é", "日", "ab"];
    let mut numbers = Numbers(2);
    let mut applied = 0;
    for _ in 0..20000 {
        let content = numbers.text(&content_pieces, 10);
        let diff = numbers.text(&diff_pieces, 10);
        let norm = content.replace("\r\n", "\n").replace('\r', "\n");
        let boundaries: Vec<usize> =
            (0..=norm.len()).filter(|i| norm.is_char_boundary(*i)).collect();
        let start = boundaries[numbers.below(boundaries.len())];
        let end = boundaries[numbers.below(boundaries.len())];
        let expected = applied_by_std(&content, &diff, start, end);
        let got = apply_unified_diff_to_string(&content, &diff, Some(start), Some(end)).ok();
        assert_eq!(got, expected, "{:?} {:?} {} {}", content, diff, start, end);
        if got.is_some() {
            applied += 1;
        }
        if start == 0 && end == norm.len() {
            let whole = apply_unified_diff_to_string(&content, &diff, None, None).ok();
            assert_eq!(whole, expected);
        }
    }
    assert!(applied > 1000);
}

#[test]
fn offsets_inside_a_character_act_like_the_next_boundary() {
    let content_pieces = ["a", "é", "日", "😀", "\n", "b"];
    let diff_pieces = ["\n", "\n", " ", "+", "-", "a", "b", "é", "日"];
    let mut numbers = Numbers(3);
    for _ in 0..20000 {
        let content = numbers.text(&content_pieces, 8);
        let diff = numbers.text(&diff_pieces, 8);
        let start = numbers.below(content.len() + 1);
        let end = start + numbers.below(content.len() + 1 - start);
        let snap = |mut offset: usize| {
            while !content.is_char_boundary(offset) {
                offset += 1;
            }
            offset
        };
        let got = apply_unified_diff_to_string(&content, &diff, Some(start), Some(end)).ok();
        let snapped =
            apply_unified_diff_to_string(&content, &diff, Some(snap(start)), Some(snap(end))).ok();
        assert_eq!(got, snapped, "{:?} {:?} {} {}", content, diff, start, end);
        if let Some(patched) = got {
            assert_eq!(&patched.as_bytes()[..snap(start)], &content.as_bytes()[..snap(start)]);
            let kept = content.len() - snap(end);
            assert_eq!(
                &patched.as_bytes()[patched.len() - kept..],
                &content.as_bytes()[snap(end)..]
            );
        }
    }
}

fn shell_escaped_by_std(command: &str) -> String {
    let first = match command.split_whitespace().next() {
        Some(first) => first,
        None => return command.to_string(),
    };
    let file_commands =
        ["cat", "ls", "cp", "mv", "rm", "chmod", "chown", "file", "head", "tail", "wc", "grep"];
    if !file_commands.contains(&first) || command.contains('"') || command.contains('\'') {
        return command.to_string();
    }
    let words: Vec<&str> = command.split(' ').filter(|w| !w.is_empty()).collect();
    words.join(" ")
}

#[test]
fn shell_escaping_agrees_with_the_standard_library() {
    let pieces = [
        " ", " ", "  ", "\t", "\n", "\u{a0}", "cat", "ls", "grep", "wc", "echo", "a/b", "~/x", "\"",
        "'", "file", "x", "é",
    ];
    let mut numbers = Numbers(4);
    for _ in 0..20000 {
        let command = numbers.text(&pieces, 8);
        assert_eq!(shell_escape_command(&command), shell_escaped_by_std(&command), "{:?}", command);
    }
}

fn nested_quotes_fixed_by_std(json: &str) -> String {
    let key = "\"command\": \"";
    if let Some(key_at) = json.find(key) {
        let from = key_at + key.len();
        if let Some(len) = json[from..].find("\" }") {
            let content = &json[from..from + len];
            let mut fixed = String::new();
            let mut chars = content.chars().peekable();
            while let Some(ch) = chars.next() {
                match ch {
                    '"' => {
                        if fixed.ends_with('\\') {
                            fixed.push(ch);
                        } else {
                            fixed.push_str("\\\"");
                        }
                    }
                    '\\' => {
                        if chars.peek() == Some(&'"') {
                            fixed.push(ch);
                        } else {
                            fixed.push_str("\\\\");
                        }
                    }
                    _ => fixed.push(ch),
                }
            }
            return format!("{}{}{}", &json[..from], fixed, &json[from + len..]);
        }
    }
    json.to_string()
}

#[test]
fn fixing_nested_quotes_agrees_with_the_standard_library() {
    let pieces =
        ["\"command\": \"", "\" }", "\"", "\"", "\\", "\\", " ", "}", "a", "é", "{", "\"c"];
    let mut numbers = Numbers(5);
    for _ in 0..20000 {
        let json = numbers.text(&pieces, 10);
        assert_eq!(
            fix_nested_quotes_in_shell_command(&json),
            nested_quotes_fixed_by_std(&json),
            "{:?}",
            json
        );
    }
}

fn mixed_quotes_fixed_by_std(json: &str) -> String {
    let mut result = String::new();
    let mut chars = json.chars().peekable();
    let mut in_string = false;
    let mut delimiter = '"';
    while let Some(ch) = chars.next() {
        match ch {
            '"' if !in_string => {
                in_string = true;
                delimiter = '"';
                result.push(ch);
            }
            '\'' if !in_string => {
                in_string = true;
                delimiter = '\'';
                result.push('"');
            }
            c if in_string && c == delimiter => {
                result.push('"');
                in_string = false;
            }
            '"' if in_string && delimiter == '\'' => result.push_str("\\\""),
            '\\' if in_string => {
                result.push(ch);
                if let Some(next) = chars.next() {
                    result.push(next);
                }
            }
            _ => result.push(ch),
        }
    }
    result
}

#[test]
fn fixing_mixed_quotes_agrees_with_the_standard_library() {
    let pieces = ["\"", "'", "\\", "a", "é", ":", " ", "{", "}"];
    let mut numbers = Numbers(6);
    for _ in 0..20000 {
        let json = numbers.text(&pieces, 12);
        assert_eq!(fix_mixed_quotes_in_json(&json), mixed_quotes_fixed_by_std(&json), "{:?}", json);
    }
}

fn excluded_by_std(path: &str) -> bool {
    let patterns = [
        "target/", "node_modules/", "__pycache__/", ".venv/", "*.log", "*.tmp", "*.bak",
        ".DS_Store", "Thumbs.db", "*.pyc", "tmp/", "temp/", ".pytest_cache/", ".mypy_cache/",
        ".ruff_cache/", "*.swp", "*.swo", "*~",
    ];
    patterns.iter().any(|pattern| {
        if pattern.ends_with('/') {
            path.contains(&format!("/{}", pattern)) || path.starts_with(pattern)
        } else if let Some(ending) = pattern.strip_prefix('*') {
            path.ends_with(ending)
        } else {
            path == *pattern || path.ends_with(&format!("/{}", pattern))
        }
    })
}

#[test]
fn exclusion_agrees_with_the_standard_library() {
    let pieces = [
        "/", "/", "target", "tmp", "temp", "node_modules", ".venv", ".DS_Store", "Thumbs.db",
        ".log", ".tmp", ".bak", ".pyc", ".swp", ".swo", "~", "src", "main.rs", "a", ".", "é",
        "__pycache__", ".pytest_cache", ".mypy_cache", ".ruff_cache",
    ];
    let mut numbers = Numbers(7);
    let mut excluded = 0;
    for _ in 0..20000 {
        let path = numbers.text(&pieces, 6);
        assert_eq!(should_exclude(&path), excluded_by_std(&path), "{:?}", path);
        if should_exclude(&path) {
            excluded += 1;
        }
    }
    assert!(excluded > 1000 && excluded < 19000);
}

fn dirty_files_by_std(status_output: &str, ignore: Option<&str>) -> DirtyFiles {
    let mut result = DirtyFiles::default();
    for line in status_output.lines() {
        if line.len() < 3 {
            continue;
        }
        let status = &line[0..2];
        let file = line[3..].trim();
        if let Some(pattern) = ignore {
            if file.contains(pattern) {
                continue;
            }
        }
        match status {
            "??" => result.untracked.push(file.to_string()),
            " M" | "MM" | "AM" => result.modified.push(file.to_string()),
            _ if status.starts_with(' ') => result.modified.push(file.to_string()),
            _ => result.staged.push(file.to_string()),
        }
    }
    result
}

#[test]
fn status_parsing_agrees_with_the_standard_library() {
    // The first three characters of a line are ASCII, as git writes them;
    // the rest of a path may hold any character.
    let heads = ["?? ", " M ", "MM ", "AM ", "M  ", "A  ", "D  ", "R  ", " D ", "UU ", "??", "M", ""];
    let tails = ["a", "b/c", "é", " ", "g3-plan/", "x y", "\t", ".log"];
    let plain_tails = ["a", "b/c", " ", "g3-plan/", "x y", "\t", ".log"];
    let mut numbers = Numbers(8);
    for round in 0..20000 {
        let mut out = String::new();
        for _ in 0..numbers.below(5) {
            let head = heads[numbers.below(heads.len())];
            out.push_str(head);
            if head.len() == 3 {
                out.push_str(&numbers.text(&tails, 3));
            } else {
                out.push_str(&numbers.text(&plain_tails, 3));
            }
            out.push_str(if numbers.below(4) == 0 { "\r\n" } else { "\n" });
        }
        let ignore = if round % 2 == 0 { Some("g3-plan") } else { None };
        let got = check_dirty_files(&out, ignore);
        let expected = dirty_files_by_std(&out, ignore);
        assert_eq!(got.modified, expected.modified, "{:?}", out);
        assert_eq!(got.untracked, expected.untracked, "{:?}", out);
        assert_eq!(got.staged, expected.staged, "{:?}", out);
    }
}
