//! The planner's history: the text of each kind of entry of
//! `planner_history.txt`, and the names of the archived plan files.
//!
//! Every function here returns text. Appending that text to the history file,
//! and flushing it, is the caller's part.

use crate::text::{
    digit_char, from_chars, join, join_texts, lines, push_all, push_str, slice, split_lines, texts,
    to_chars,
};
use vstd::prelude::*;

verus! {

/// The form of the time that begins an entry of the history:
/// `YYYY-MM-DD HH:MM:SS`.
pub const HISTORY_TIME_FORMAT: &'static str = "%Y-%m-%d %H:%M:%S";

/// The form of the time in the name of an archived file, which holds no
/// colon: `YYYY-MM-DD_HH-MM-SS`.
pub const FILE_TIME_FORMAT: &'static str = "%Y-%m-%d_%H-%M-%S";

/// Whether `format` is one of the two forms in which the planner writes a
/// time.
pub open spec fn is_time_format(format: Seq<char>) -> bool {
    format == HISTORY_TIME_FORMAT@ || format == FILE_TIME_FORMAT@
}

/// The decimal numeral of `n`, with zeros before it where it has fewer than
/// `width` digits.
pub open spec fn zero_padded(n: nat, width: nat) -> Seq<char>
    decreases n, width,
{
    if n < 10 && width <= 1 {
        seq![digit_char(n)]
    } else {
        zero_padded(
            n / 10,
            if width > 0 {
                (width - 1) as nat
            } else {
                0
            },
        ).push(digit_char(n % 10))
    }
}

/// A year as a time holds it: four digits for the years 0 to 9999, and a sign
/// before four digits or more for any other year.
pub open spec fn year_text(year: int) -> Seq<char> {
    if 0 <= year < 10000 {
        zero_padded(year as nat, 4)
    } else if year < 0 {
        seq!['-'] + zero_padded((-year) as nat, 4)
    } else {
        seq!['+'] + zero_padded(year as nat, 4)
    }
}

/// A date and a time of day written as year, month and day with minus signs
/// between them, the character `date_end`, and hour, minute and second with
/// `time_sep` between them; all but the year in two digits.
pub open spec fn time_text(
    year: int,
    month: nat,
    day: nat,
    hour: nat,
    minute: nat,
    second: nat,
    date_end: char,
    time_sep: char,
) -> Seq<char> {
    year_text(year) + seq!['-'] + zero_padded(month, 2) + seq!['-'] + zero_padded(day, 2)
        + seq![date_end] + zero_padded(hour, 2) + seq![time_sep] + zero_padded(minute, 2)
        + seq![time_sep] + zero_padded(second, 2)
}

/// Whether `stamp` is some date and time of day written in that form: the
/// month is 1 to 12, the day 1 to 31, the hour at most 23, the minute at most
/// 59 and the second at most 60, which a leap second takes.
pub open spec fn is_time_text(stamp: Seq<char>, date_end: char, time_sep: char) -> bool {
    exists|year: int, month: nat, day: nat, hour: nat, minute: nat, second: nat|
        1 <= month <= 12 && 1 <= day <= 31 && hour <= 23 && minute <= 59 && second <= 60 && stamp
            == #[trigger] time_text(year, month, day, hour, minute, second, date_end, time_sep)
}

/// The local time of the call as chrono's `Local::now` gives it, written by
/// chrono's `DateTime::format` in the form that `format` describes. Which
/// time it is depends on the clock and on the time zone of the machine, so
/// the contract claims only the shape that chrono documents for the
/// specifiers in the planner's two forms: `%Y` is the year in four digits,
/// with a sign where it lies outside 0 to 9999; `%m`, `%d`, `%H`, `%M` and
/// `%S` are month (01 to 12), day (01 to 31), hour (00 to 23), minute (00 to
/// 59) and second (00 to 60) in two digits; every other character of the form
/// is written as it is. Only the planner's two forms are admitted; a form
/// that chrono does not know makes it panic. Where the clock stands before
/// 1970, `Local::now` panics.
#[verifier::external_body]
fn local_time(format: &str) -> (stamp: String)
    requires
        is_time_format(format@),
    ensures
        format@ == HISTORY_TIME_FORMAT@ ==> is_time_text(stamp@, ' ', ':'),
        format@ == FILE_TIME_FORMAT@ ==> is_time_text(stamp@, '_', '-'),
{
    chrono::Local::now().format(format).to_string()
}

/// The local time of the call in the form that begins an entry of the
/// history: `YYYY-MM-DD HH:MM:SS`.
pub fn format_timestamp() -> (stamp: String)
    ensures
        is_time_text(stamp@, ' ', ':'),
{
    local_time(HISTORY_TIME_FORMAT)
}

/// The local time of the call in the form that file names hold:
/// `YYYY-MM-DD_HH-MM-SS`.
pub fn format_timestamp_for_filename() -> (stamp: String)
    ensures
        is_time_text(stamp@, '_', '-'),
{
    local_time(FILE_TIME_FORMAT)
}

/// Whether `text` holds nothing but digits, signs and the two characters
/// `date_end` and `time_sep`.
pub open spec fn holds_time_chars_only(text: Seq<char>, date_end: char, time_sep: char) -> bool {
    forall|k: int|
        0 <= k < text.len() ==> ('0' <= #[trigger] text[k] <= '9') || text[k] == '-' || text[k]
            == '+' || text[k] == date_end || text[k] == time_sep
}

/// A numeral with zeros before it has the width asked for or more, and holds
/// digits only.
pub proof fn lemma_zero_padded(n: nat, width: nat)
    ensures
        zero_padded(n, width).len() >= 1,
        zero_padded(n, width).len() >= width,
        forall|k: int|
            0 <= k < zero_padded(n, width).len() ==> '0' <= #[trigger] zero_padded(n, width)[k]
                <= '9',
    decreases n, width,
{
    if n < 10 && width <= 1 {
    } else {
        let rest: nat = if width > 0 {
            (width - 1) as nat
        } else {
            0
        };
        lemma_zero_padded(n / 10, rest);
    }
}

/// A time in the planner's form has nineteen characters or more, and holds
/// nothing but digits, signs and the two characters of the form.
pub proof fn lemma_time_text_chars(stamp: Seq<char>, date_end: char, time_sep: char)
    requires
        is_time_text(stamp, date_end, time_sep),
    ensures
        stamp.len() >= 19,
        holds_time_chars_only(stamp, date_end, time_sep),
{
    let (year, month, day, hour, minute, second) = choose|
        year: int,
        month: nat,
        day: nat,
        hour: nat,
        minute: nat,
        second: nat,
    |
        1 <= month <= 12 && 1 <= day <= 31 && hour <= 23 && minute <= 59 && second <= 60 && stamp
            == #[trigger] time_text(year, month, day, hour, minute, second, date_end, time_sep);
    if year < 0 {
        lemma_zero_padded((-year) as nat, 4);
    } else {
        lemma_zero_padded(year as nat, 4);
    }
    lemma_zero_padded(month, 2);
    lemma_zero_padded(day, 2);
    lemma_zero_padded(hour, 2);
    lemma_zero_padded(minute, 2);
    lemma_zero_padded(second, 2);
    let y = year_text(year);
    assert(y.len() >= 4 && holds_time_chars_only(y, date_end, time_sep));
    let date = y + seq!['-'] + zero_padded(month, 2) + seq!['-'] + zero_padded(day, 2);
    assert(date.len() >= 10 && holds_time_chars_only(date, date_end, time_sep));
    let upto_hour = date + seq![date_end] + zero_padded(hour, 2);
    assert(upto_hour.len() >= 13 && holds_time_chars_only(upto_hour, date_end, time_sep));
    let upto_minute = upto_hour + seq![time_sep] + zero_padded(minute, 2);
    assert(upto_minute.len() >= 16 && holds_time_chars_only(upto_minute, date_end, time_sep));
    assert(stamp == upto_minute + seq![time_sep] + zero_padded(second, 2));
}

/// The time that begins an entry of the history holds no line feed, so it
/// never breaks the line of the entry.
pub proof fn lemma_history_time_is_unbroken(stamp: Seq<char>)
    requires
        is_time_text(stamp, ' ', ':'),
    ensures
        is_unbroken(stamp),
{
    lemma_time_text_chars(stamp, ' ', ':');
}

/// The names of the archived files are safe in file systems that refuse
/// colons, slashes and spaces: for every time, neither name holds one.
pub proof fn lemma_archive_names_are_safe(stamp: Seq<char>)
    requires
        is_time_text(stamp, '_', '-'),
    ensures
        forall|k: int|
            0 <= k < completed_requirements_name(stamp).len() ==> {
                let c = #[trigger] completed_requirements_name(stamp)[k];
                c != ':' && c != '/' && c != ' '
            },
        forall|k: int|
            0 <= k < completed_todo_name(stamp).len() ==> {
                let c = #[trigger] completed_todo_name(stamp)[k];
                c != ':' && c != '/' && c != ' '
            },
{
    lemma_time_text_chars(stamp, '_', '-');
    reveal_strlit("completed_requirements_");
    reveal_strlit("completed_todo_");
    reveal_strlit(".md");
}

/// An entry of the history, without its time.
#[derive(Debug)]
pub enum HistoryEntry {
    /// The requirements are being refined.
    RefiningRequirements,
    /// The commit that HEAD named when implementing began.
    GitHead { sha: String },
    /// Implementing begins; `summary` sums up the requirements.
    StartImplementing { summary: String },
    /// An interrupted run is being resumed.
    AttemptingRecovery,
    /// The user chose not to resume an interrupted run.
    SkippedRecovery,
    /// The requirements were implemented and the plan files archived under
    /// these names.
    CompletedRequirements { requirements_file: String, todo_file: String },
    /// A commit with this summary is about to be made.
    GitCommit { message: String },
}

/// A `HistoryEntry` as contracts see it.
pub enum EntryText {
    RefiningRequirements,
    GitHead { sha: Seq<char> },
    StartImplementing { summary: Seq<char> },
    AttemptingRecovery,
    SkippedRecovery,
    CompletedRequirements { requirements_file: Seq<char>, todo_file: Seq<char> },
    GitCommit { message: Seq<char> },
}

impl View for HistoryEntry {
    type V = EntryText;

    open spec fn view(&self) -> EntryText {
        match self {
            HistoryEntry::RefiningRequirements => EntryText::RefiningRequirements,
            HistoryEntry::GitHead { sha } => EntryText::GitHead { sha: sha@ },
            HistoryEntry::StartImplementing { summary } => EntryText::StartImplementing {
                summary: summary@,
            },
            HistoryEntry::AttemptingRecovery => EntryText::AttemptingRecovery,
            HistoryEntry::SkippedRecovery => EntryText::SkippedRecovery,
            HistoryEntry::CompletedRequirements {
                requirements_file,
                todo_file,
            } => EntryText::CompletedRequirements {
                requirements_file: requirements_file@,
                todo_file: todo_file@,
            },
            HistoryEntry::GitCommit { message } => EntryText::GitCommit { message: message@ },
        }
    }
}

/// The longest commit summary that the history shows in full, in characters.
pub const COMMIT_SUMMARY_CHARS: usize = 72;

/// The number of characters kept of a commit summary that is too long.
pub const COMMIT_SUMMARY_KEPT: usize = 69;

/// A commit summary as the history shows it: in full where it has at most
/// `COMMIT_SUMMARY_CHARS` characters, else its first `COMMIT_SUMMARY_KEPT`
/// characters and three dots.
pub open spec fn shown_summary(message: Seq<char>) -> Seq<char> {
    if message.len() > COMMIT_SUMMARY_CHARS {
        message.take(COMMIT_SUMMARY_KEPT as int) + "..."@
    } else {
        message
    }
}

/// Each of `summary_lines` behind two spaces.
pub open spec fn indented(summary_lines: Seq<Seq<char>>) -> Seq<Seq<char>> {
    Seq::new(summary_lines.len(), |i: int| "  "@ + summary_lines[i])
}

/// The block that holds the summary of the requirements: `<<`, the lines of
/// the summary behind two spaces each, and `>>`.
pub open spec fn summary_block(summary: Seq<char>) -> Seq<char> {
    "<<\n"@ + join(indented(lines(summary)), seq!['\n']) + "\n>>"@
}

/// What an entry adds to the history when it is written at the time that
/// `stamp` shows: one line, or for `StartImplementing` one line and the
/// summary block, each ended by a line feed.
pub open spec fn entry_text(stamp: Seq<char>, entry: EntryText) -> Seq<char> {
    match entry {
        EntryText::RefiningRequirements => stamp + " - REFINING REQUIREMENTS (new_requirements.md)"@
            + "\n"@,
        EntryText::GitHead { sha } => stamp + " - GIT HEAD ("@ + sha + ")"@ + "\n"@,
        EntryText::StartImplementing { summary } => stamp
            + " - START IMPLEMENTING (current_requirements.md)"@ + "\n"@ + summary_block(summary)
            + "\n"@,
        EntryText::AttemptingRecovery => stamp + "   ATTEMPTING RECOVERY"@ + "\n"@,
        EntryText::SkippedRecovery => stamp + "  USER SKIPPED RECOVERY"@ + "\n"@,
        EntryText::CompletedRequirements { requirements_file, todo_file } => stamp
            + " - COMPLETED REQUIREMENTS ("@ + requirements_file + ", "@ + todo_file + ")"@
            + "\n"@,
        EntryText::GitCommit { message } => stamp + " - GIT COMMIT ("@ + shown_summary(message)
            + ")"@ + "\n"@,
    }
}

/// Appends the summary block for `summary` to `out`.
fn push_summary_block(out: &mut Vec<char>, summary: &str)
    ensures
        final(out)@ == old(out)@ + summary_block(summary@),
{
    let summary_lines = split_lines(&to_chars(summary));
    let mut shifted: Vec<Vec<char>> = Vec::new();
    let mut i: usize = 0;
    proof {
        assert(texts(shifted@) =~= indented(lines(summary@)).take(0));
    }
    while i < summary_lines.len()
        invariant
            i <= summary_lines.len(),
            texts(summary_lines@) == lines(summary@),
            texts(shifted@) == indented(lines(summary@)).take(i as int),
        decreases summary_lines.len() - i,
    {
        let mut line = to_chars("  ");
        push_all(&mut line, &summary_lines[i]);
        let ghost before = shifted@;
        shifted.push(line);
        proof {
            let all = indented(lines(summary@));
            assert(texts(summary_lines@)[i as int] == summary_lines@[i as int]@);
            assert(all[i as int] == line@);
            assert(texts(shifted@) =~= texts(before).push(line@));
            assert(all.take(i + 1) =~= all.take(i as int).push(all[i as int]));
        }
        i += 1;
    }
    proof {
        let all = indented(lines(summary@));
        assert(all.take(summary_lines.len() as int) =~= all);
    }
    let newline: Vec<char> = vec!['\n'];
    assert(newline@ =~= seq!['\n']);
    let body = join_texts(&shifted, &newline);
    let ghost start = out@;
    push_str(out, "<<\n");
    push_all(out, &body);
    push_str(out, "\n>>");
    assert(out@ =~= start + summary_block(summary@));
}

/// What `entry` adds to the history when it is written at the time that
/// `timestamp` shows.
pub fn history_entry(timestamp: &str, entry: &HistoryEntry) -> (appended: String)
    ensures
        appended@ == entry_text(timestamp@, entry@),
{
    let mut out = to_chars(timestamp);
    match entry {
        HistoryEntry::RefiningRequirements => {
            push_str(&mut out, " - REFINING REQUIREMENTS (new_requirements.md)");
        },
        HistoryEntry::GitHead { sha } => {
            push_str(&mut out, " - GIT HEAD (");
            push_str(&mut out, sha.as_str());
            push_str(&mut out, ")");
        },
        HistoryEntry::StartImplementing { summary } => {
            push_str(&mut out, " - START IMPLEMENTING (current_requirements.md)");
            push_str(&mut out, "\n");
            push_summary_block(&mut out, summary.as_str());
        },
        HistoryEntry::AttemptingRecovery => {
            push_str(&mut out, "   ATTEMPTING RECOVERY");
        },
        HistoryEntry::SkippedRecovery => {
            push_str(&mut out, "  USER SKIPPED RECOVERY");
        },
        HistoryEntry::CompletedRequirements { requirements_file, todo_file } => {
            push_str(&mut out, " - COMPLETED REQUIREMENTS (");
            push_str(&mut out, requirements_file.as_str());
            push_str(&mut out, ", ");
            push_str(&mut out, todo_file.as_str());
            push_str(&mut out, ")");
        },
        HistoryEntry::GitCommit { message } => {
            push_str(&mut out, " - GIT COMMIT (");
            let chars = to_chars(message.as_str());
            if chars.len() > COMMIT_SUMMARY_CHARS {
                let kept = slice(&chars, 0, COMMIT_SUMMARY_KEPT);
                push_all(&mut out, &kept);
                push_str(&mut out, "...");
            } else {
                push_all(&mut out, &chars);
            }
            push_str(&mut out, ")");
        },
    }
    push_str(&mut out, "\n");
    from_chars(&out)
}

/// What a `REFINING REQUIREMENTS` entry written now adds to the history.
pub fn write_refining_requirements() -> (appended: String)
    ensures
        exists|stamp: Seq<char>|
            is_time_text(stamp, ' ', ':') && appended@ == entry_text(
                stamp,
                EntryText::RefiningRequirements,
            ),
{
    let stamp = format_timestamp();
    history_entry(stamp.as_str(), &HistoryEntry::RefiningRequirements)
}

/// What a `GIT HEAD` entry for the commit `sha` written now adds to the
/// history.
pub fn write_git_head(sha: &str) -> (appended: String)
    ensures
        exists|stamp: Seq<char>|
            is_time_text(stamp, ' ', ':') && appended@ == entry_text(
                stamp,
                EntryText::GitHead { sha: sha@ },
            ),
{
    let stamp = format_timestamp();
    history_entry(stamp.as_str(), &HistoryEntry::GitHead { sha: sha.to_owned() })
}

/// What a `START IMPLEMENTING` entry with the summary block for `summary`
/// written now adds to the history.
pub fn write_start_implementing(summary: &str) -> (appended: String)
    ensures
        exists|stamp: Seq<char>|
            is_time_text(stamp, ' ', ':') && appended@ == entry_text(
                stamp,
                EntryText::StartImplementing { summary: summary@ },
            ),
{
    let stamp = format_timestamp();
    history_entry(stamp.as_str(), &HistoryEntry::StartImplementing { summary: summary.to_owned() })
}

/// What an `ATTEMPTING RECOVERY` entry written now adds to the history.
pub fn write_attempting_recovery() -> (appended: String)
    ensures
        exists|stamp: Seq<char>|
            is_time_text(stamp, ' ', ':') && appended@ == entry_text(
                stamp,
                EntryText::AttemptingRecovery,
            ),
{
    let stamp = format_timestamp();
    history_entry(stamp.as_str(), &HistoryEntry::AttemptingRecovery)
}

/// What a `USER SKIPPED RECOVERY` entry written now adds to the history.
pub fn write_skipped_recovery() -> (appended: String)
    ensures
        exists|stamp: Seq<char>|
            is_time_text(stamp, ' ', ':') && appended@ == entry_text(
                stamp,
                EntryText::SkippedRecovery,
            ),
{
    let stamp = format_timestamp();
    history_entry(stamp.as_str(), &HistoryEntry::SkippedRecovery)
}

/// What a `COMPLETED REQUIREMENTS` entry that names the two archived files
/// written now adds to the history.
pub fn write_completed_requirements(requirements_file: &str, todo_file: &str) -> (appended: String)
    ensures
        exists|stamp: Seq<char>|
            is_time_text(stamp, ' ', ':') && appended@ == entry_text(
                stamp,
                EntryText::CompletedRequirements {
                    requirements_file: requirements_file@,
                    todo_file: todo_file@,
                },
            ),
{
    let stamp = format_timestamp();
    history_entry(
        stamp.as_str(),
        &HistoryEntry::CompletedRequirements {
            requirements_file: requirements_file.to_owned(),
            todo_file: todo_file.to_owned(),
        },
    )
}

/// What a `GIT COMMIT` entry for a commit with the summary `message` written
/// now adds to the history. It is to be appended before the commit is made, so
/// that the commit holds it.
pub fn write_git_commit(message: &str) -> (appended: String)
    ensures
        exists|stamp: Seq<char>|
            is_time_text(stamp, ' ', ':') && appended@ == entry_text(
                stamp,
                EntryText::GitCommit { message: message@ },
            ),
{
    let stamp = format_timestamp();
    history_entry(stamp.as_str(), &HistoryEntry::GitCommit { message: message.to_owned() })
}

/// The name of the file that takes the requirements once they are implemented.
pub open spec fn completed_requirements_name(stamp: Seq<char>) -> Seq<char> {
    "completed_requirements_"@ + stamp + ".md"@
}

/// The name of the file that takes the todo list once it is worked off.
pub open spec fn completed_todo_name(stamp: Seq<char>) -> Seq<char> {
    "completed_todo_"@ + stamp + ".md"@
}

/// The name of the archive of the requirements for the time that `stamp` shows.
pub fn completed_requirements_filename_at(stamp: &str) -> (name: String)
    ensures
        name@ == completed_requirements_name(stamp@),
{
    let mut out = to_chars("completed_requirements_");
    push_str(&mut out, stamp);
    push_str(&mut out, ".md");
    from_chars(&out)
}

/// The name of the archive of the todo list for the time that `stamp` shows.
pub fn completed_todo_filename_at(stamp: &str) -> (name: String)
    ensures
        name@ == completed_todo_name(stamp@),
{
    let mut out = to_chars("completed_todo_");
    push_str(&mut out, stamp);
    push_str(&mut out, ".md");
    from_chars(&out)
}

/// The name of the archive of the requirements, for the time of the call.
pub fn completed_requirements_filename() -> (name: String)
    ensures
        exists|stamp: Seq<char>|
            is_time_text(stamp, '_', '-') && name@ == completed_requirements_name(stamp),
{
    let stamp = format_timestamp_for_filename();
    completed_requirements_filename_at(stamp.as_str())
}

/// The name of the archive of the todo list, for the time of the call.
pub fn completed_todo_filename() -> (name: String)
    ensures
        exists|stamp: Seq<char>| is_time_text(stamp, '_', '-') && name@ == completed_todo_name(stamp),
{
    let stamp = format_timestamp_for_filename();
    completed_todo_filename_at(stamp.as_str())
}

/// Whether `text` holds no line feed.
pub open spec fn is_unbroken(text: Seq<char>) -> bool {
    forall|k: int| 0 <= k < text.len() ==> text[k] != '\n'
}

/// Whether the texts that an entry is made of hold no line feed. The summary
/// of `StartImplementing` may hold any: it gets a block of its own.
pub open spec fn has_unbroken_fields(entry: EntryText) -> bool {
    match entry {
        EntryText::GitHead { sha } => is_unbroken(sha),
        EntryText::CompletedRequirements { requirements_file, todo_file } => is_unbroken(
            requirements_file,
        ) && is_unbroken(todo_file),
        EntryText::GitCommit { message } => is_unbroken(message),
        _ => true,
    }
}

/// The first line of what an entry adds to the history, without its line feed.
pub open spec fn entry_line(stamp: Seq<char>, entry: EntryText) -> Seq<char> {
    match entry {
        EntryText::RefiningRequirements => stamp + " - REFINING REQUIREMENTS (new_requirements.md)"@,
        EntryText::GitHead { sha } => stamp + " - GIT HEAD ("@ + sha + ")"@,
        EntryText::StartImplementing { summary } => stamp
            + " - START IMPLEMENTING (current_requirements.md)"@,
        EntryText::AttemptingRecovery => stamp + "   ATTEMPTING RECOVERY"@,
        EntryText::SkippedRecovery => stamp + "  USER SKIPPED RECOVERY"@,
        EntryText::CompletedRequirements { requirements_file, todo_file } => stamp
            + " - COMPLETED REQUIREMENTS ("@ + requirements_file + ", "@ + todo_file + ")"@,
        EntryText::GitCommit { message } => stamp + " - GIT COMMIT ("@ + shown_summary(message)
            + ")"@,
    }
}

/// The line of an entry is never broken: where neither the time nor the texts
/// that the entry is made of hold a line feed, the line of the entry holds
/// none, and what the entry adds to the history begins with that line and a
/// line feed. For every entry but `StartImplementing` that is all it adds.
pub proof fn lemma_entry_line_is_unbroken(stamp: Seq<char>, entry: EntryText)
    requires
        is_unbroken(stamp),
        has_unbroken_fields(entry),
    ensures
        is_unbroken(entry_line(stamp, entry)),
        (entry_line(stamp, entry) + seq!['\n']).is_prefix_of(entry_text(stamp, entry)),
        !(entry is StartImplementing) ==> entry_text(stamp, entry) == entry_line(stamp, entry)
            + seq!['\n'],
{
    reveal_strlit("\n");
    reveal_strlit(" - REFINING REQUIREMENTS (new_requirements.md)");
    reveal_strlit(" - GIT HEAD (");
    reveal_strlit(")");
    reveal_strlit(" - START IMPLEMENTING (current_requirements.md)");
    reveal_strlit("   ATTEMPTING RECOVERY");
    reveal_strlit("  USER SKIPPED RECOVERY");
    reveal_strlit(" - COMPLETED REQUIREMENTS (");
    reveal_strlit(", ");
    reveal_strlit(" - GIT COMMIT (");
    reveal_strlit("...");
    assert("\n"@ =~= seq!['\n']);
    let line = entry_line(stamp, entry);
    let text = entry_text(stamp, entry);
    match entry {
        EntryText::StartImplementing { summary } => {
            assert(text =~= line + seq!['\n'] + (summary_block(summary) + "\n"@));
            assert(text.subrange(0, line.len() as int + 1) =~= line + seq!['\n']);
        },
        EntryText::GitCommit { message } => {
            let shown = shown_summary(message);
            assert(is_unbroken(shown)) by {
                assert forall|k: int| 0 <= k < shown.len() implies shown[k] != '\n' by {
                    if message.len() > COMMIT_SUMMARY_CHARS && k < COMMIT_SUMMARY_KEPT {
                        assert(shown[k] == message[k]);
                    }
                }
            }
            assert(text =~= line + seq!['\n']);
            assert(text.subrange(0, line.len() as int + 1) =~= text);
        },
        _ => {
            assert(text =~= line + seq!['\n']);
            assert(text.subrange(0, line.len() as int + 1) =~= text);
        },
    }
}

} // verus!
