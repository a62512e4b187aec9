//! The rules of the git driver: how the lines of `git status --porcelain` are
//! classified, which files are never staged, and how a commit message and a
//! branch label are composed. Running git is the caller's part.

use crate::text::{
    contains, contains_text, ends_with, equals_str, from_chars, join, join_texts, lines, push_all,
    push_str, push_text, same_text, slice, split_lines, starts_with, texts, to_chars, trim, trimmed,
    views_of,
};
use vstd::prelude::*;

verus! {

/// The patterns of files and directories that are never staged. A pattern that
/// ends in a slash names a directory, one that begins with a star names an
/// ending, and any other names a file.
pub open spec fn exclude_patterns() -> Seq<Seq<char>> {
    seq![
        "target/"@,
        "node_modules/"@,
        "__pycache__/"@,
        ".venv/"@,
        "*.log"@,
        "*.tmp"@,
        "*.bak"@,
        ".DS_Store"@,
        "Thumbs.db"@,
        "*.pyc"@,
        "tmp/"@,
        "temp/"@,
        ".pytest_cache/"@,
        ".mypy_cache/"@,
        ".ruff_cache/"@,
        "*.swp"@,
        "*.swo"@,
        "*~"@,
    ]
}

/// Whether `path` falls under `pattern`.
///
/// A directory pattern `name/` takes every path that begins with `name/` or
/// holds `/name/`. An ending pattern `*end` takes every path that ends in
/// `end`. A file pattern `name` takes the path `name` and every path that ends
/// in `/name`.
pub open spec fn matches_pattern(path: Seq<char>, pattern: Seq<char>) -> bool {
    if pattern.len() > 0 && pattern.last() == '/' {
        pattern.is_prefix_of(path) || contains(path, seq!['/'] + pattern)
    } else if pattern.len() > 0 && pattern[0] == '*' {
        pattern.drop_first().is_suffix_of(path)
    } else {
        path == pattern || (seq!['/'] + pattern).is_suffix_of(path)
    }
}

/// Whether `path` falls under one of `patterns`.
pub open spec fn matches_any(path: Seq<char>, patterns: Seq<Seq<char>>) -> bool {
    exists|k: int| 0 <= k < patterns.len() && matches_pattern(path, #[trigger] patterns[k])
}

/// Whether `path` is never staged.
pub open spec fn is_excluded(path: Seq<char>) -> bool {
    matches_any(path, exclude_patterns())
}

/// Whether `path` falls under `pattern`.
fn pattern_matches(path: &Vec<char>, pattern: &Vec<char>) -> (r: bool)
    ensures
        r == matches_pattern(path@, pattern@),
{
    let n = pattern.len();
    if n > 0 && pattern[n - 1] == '/' {
        if starts_with(path, pattern) {
            return true;
        }
        let mut inner: Vec<char> = vec!['/'];
        push_all(&mut inner, pattern);
        assert(inner@ =~= seq!['/'] + pattern@);
        contains_text(path, &inner)
    } else if n > 0 && pattern[0] == '*' {
        let end = slice(pattern, 1, n);
        assert(end@ =~= pattern@.drop_first());
        ends_with(path, &end)
    } else {
        if same_text(path, pattern) {
            return true;
        }
        let mut tail: Vec<char> = vec!['/'];
        push_all(&mut tail, pattern);
        assert(tail@ =~= seq!['/'] + pattern@);
        ends_with(path, &tail)
    }
}

/// The patterns of files and directories that are never staged.
fn patterns() -> (list: Vec<Vec<char>>)
    ensures
        texts(list@) == exclude_patterns(),
{
    let mut list: Vec<Vec<char>> = Vec::new();
    list.push(to_chars("target/"));
    list.push(to_chars("node_modules/"));
    list.push(to_chars("__pycache__/"));
    list.push(to_chars(".venv/"));
    list.push(to_chars("*.log"));
    list.push(to_chars("*.tmp"));
    list.push(to_chars("*.bak"));
    list.push(to_chars(".DS_Store"));
    list.push(to_chars("Thumbs.db"));
    list.push(to_chars("*.pyc"));
    list.push(to_chars("tmp/"));
    list.push(to_chars("temp/"));
    list.push(to_chars(".pytest_cache/"));
    list.push(to_chars(".mypy_cache/"));
    list.push(to_chars(".ruff_cache/"));
    list.push(to_chars("*.swp"));
    list.push(to_chars("*.swo"));
    list.push(to_chars("*~"));
    assert(texts(list@) =~= exclude_patterns());
    list
}

/// Whether the characters of a path make a path that is never staged.
fn excluded_path(path: &Vec<char>) -> (r: bool)
    ensures
        r == is_excluded(path@),
{
    let list = patterns();
    let mut k: usize = 0;
    while k < list.len()
        invariant
            k <= list.len(),
            texts(list@) == exclude_patterns(),
            forall|j: int| 0 <= j < k ==> !matches_pattern(path@, #[trigger] exclude_patterns()[j]),
        decreases list.len() - k,
    {
        assert(texts(list@)[k as int] == list@[k as int]@);
        if pattern_matches(path, &list[k]) {
            return true;
        }
        k += 1;
    }
    false
}

/// Whether a file is left out of staging because its path falls under one of
/// the exclusion patterns.
pub fn should_exclude(path: &str) -> (r: bool)
    ensures
        r == is_excluded(path@),
{
    let chars = to_chars(path);
    excluded_path(&chars)
}

/// The files that git reports as changed, by the kind of change.
#[derive(Debug)]
pub struct DirtyFiles {
    /// Changed in the working tree and not staged.
    pub modified: Vec<String>,
    /// Not known to git.
    pub untracked: Vec<String>,
    /// Staged for the next commit.
    pub staged: Vec<String>,
}

/// The lines that show one kind of change: none where there is no such file,
/// else the title and each file behind two spaces.
pub open spec fn display_section(title: Seq<char>, files: Seq<Seq<char>>) -> Seq<Seq<char>> {
    if files.len() == 0 {
        Seq::empty()
    } else {
        seq![title] + Seq::new(files.len(), |i: int| "  "@ + files[i])
    }
}

/// The lines that show dirty files: the staged, the modified and the untracked
/// ones, in that order.
pub open spec fn display_lines(
    staged: Seq<Seq<char>>,
    modified: Seq<Seq<char>>,
    untracked: Seq<Seq<char>>,
) -> Seq<Seq<char>> {
    display_section("Staged:"@, staged) + display_section("Modified:"@, modified)
        + display_section("Untracked:"@, untracked)
}

/// Appends the lines that show one kind of change to `out`.
fn push_section(out: &mut Vec<Vec<char>>, title: &str, files: &Vec<String>)
    ensures
        texts(final(out)@) == texts(old(out)@) + display_section(title@, views_of(files@)),
{
    if files.len() == 0 {
        assert(texts(out@) + display_section(title@, views_of(files@)) =~= texts(out@));
        return ;
    }
    out.push(to_chars(title));
    let mut i: usize = 0;
    while i < files.len()
        invariant
            i <= files.len(),
            files.len() > 0,
            texts(out@) == texts(old(out)@) + display_section(title@, views_of(files@)).take(
                i + 1,
            ),
        decreases files.len() - i,
    {
        let mut line = to_chars("  ");
        push_str(&mut line, files[i].as_str());
        let ghost before = out@;
        out.push(line);
        proof {
            let section = display_section(title@, views_of(files@));
            assert(section[i + 1] == line@);
            assert(texts(out@) =~= texts(before).push(line@));
            assert(section.take(i + 2) =~= section.take(i + 1).push(section[i + 1]));
        }
        i += 1;
    }
    proof {
        let section = display_section(title@, views_of(files@));
        assert(section.take(files.len() + 1) =~= section);
    }
}

impl DirtyFiles {
    /// Whether git reports no changed file at all.
    pub fn is_empty(&self) -> (r: bool)
        ensures
            r == (self.modified@.len() == 0 && self.untracked@.len() == 0 && self.staged@.len()
                == 0),
    {
        self.modified.len() == 0 && self.untracked.len() == 0 && self.staged.len() == 0
    }

    /// The dirty files for showing to the user: one section for each kind of
    /// change that has files, the sections' lines joined by line feeds.
    pub fn to_display_string(&self) -> (shown: String)
        ensures
            shown@ == join(
                display_lines(
                    views_of(self.staged@),
                    views_of(self.modified@),
                    views_of(self.untracked@),
                ),
                seq!['\n'],
            ),
    {
        let mut shown_lines: Vec<Vec<char>> = Vec::new();
        assert(texts(shown_lines@) =~= Seq::<Seq<char>>::empty());
        push_section(&mut shown_lines, "Staged:", &self.staged);
        push_section(&mut shown_lines, "Modified:", &self.modified);
        push_section(&mut shown_lines, "Untracked:", &self.untracked);
        let newline: Vec<char> = vec!['\n'];
        assert(newline@ =~= seq!['\n']);
        let joined = join_texts(&shown_lines, &newline);
        proof {
            assert(texts(shown_lines@) =~= display_lines(
                views_of(self.staged@),
                views_of(self.modified@),
                views_of(self.untracked@),
            ));
        }
        from_chars(&joined)
    }
}

impl Default for DirtyFiles {
    fn default() -> (empty: Self)
        ensures
            empty.modified@.len() == 0,
            empty.untracked@.len() == 0,
            empty.staged@.len() == 0,
    {
        DirtyFiles { modified: Vec::new(), untracked: Vec::new(), staged: Vec::new() }
    }
}

/// The kind of change that a line of git's short status reports.
#[derive(Clone, Copy, Debug, PartialEq, Eq, Structural)]
pub enum FileClass {
    Untracked,
    Modified,
    Staged,
}

/// The two status characters of a line of git's short status.
pub open spec fn status_of(line: Seq<char>) -> Seq<char> {
    line.take(2)
}

/// The path that a line of git's short status names: what follows the two
/// status characters and the separator, without white space around it.
pub open spec fn file_of(line: Seq<char>) -> Seq<char> {
    trim(line.skip(3))
}

/// The kind of change that two status characters stand for: `??` is an
/// untracked file; ` M`, `MM` and `AM` are modified files; of the others, those
/// that begin with a space are modified files and the rest staged ones.
pub open spec fn status_class(status: Seq<char>) -> FileClass {
    if status == "??"@ {
        FileClass::Untracked
    } else if status == " M"@ || status == "MM"@ || status == "AM"@ {
        FileClass::Modified
    } else if status.len() > 0 && status[0] == ' ' {
        FileClass::Modified
    } else {
        FileClass::Staged
    }
}

/// Whether a line of git's short status reports a file that counts: the line
/// has three characters or more, and the path does not hold the text to
/// ignore, if one was given.
pub open spec fn is_status_entry(line: Seq<char>, ignore: Option<Seq<char>>) -> bool {
    line.len() >= 3 && match ignore {
        Some(pattern) => !contains(file_of(line), pattern),
        None => true,
    }
}

/// The paths that the lines of git's short status report with a change of the
/// kind `class`, in the order of the lines.
pub open spec fn files_of_class(
    status_lines: Seq<Seq<char>>,
    ignore: Option<Seq<char>>,
    class: FileClass,
) -> Seq<Seq<char>>
    decreases status_lines.len(),
{
    if status_lines.len() == 0 {
        Seq::empty()
    } else {
        let before = files_of_class(status_lines.drop_last(), ignore, class);
        let line = status_lines.last();
        if is_status_entry(line, ignore) && status_class(status_of(line)) == class {
            before.push(file_of(line))
        } else {
            before
        }
    }
}

/// The view of an optional string slice.
pub open spec fn optional_text(text: Option<&str>) -> Option<Seq<char>> {
    match text {
        Some(text) => Some(text@),
        None => None,
    }
}

/// The kind of change that two status characters stand for.
fn classify(status: &Vec<char>) -> (class: FileClass)
    ensures
        class == status_class(status@),
{
    if equals_str(status, "??") {
        FileClass::Untracked
    } else if equals_str(status, " M") || equals_str(status, "MM")
        || equals_str(status, "AM") {
        FileClass::Modified
    } else if status.len() > 0 && status[0] == ' ' {
        FileClass::Modified
    } else {
        FileClass::Staged
    }
}

/// The path that a line of git's short status names.
fn path_of(line: &Vec<char>) -> (path: Vec<char>)
    requires
        line.len() >= 3,
    ensures
        path@ == file_of(line@),
{
    let rest = slice(line, 3, line.len());
    assert(rest@ =~= line@.skip(3));
    trimmed(&rest)
}

/// Sorts the files that `git status --porcelain` printed by the kind of change.
/// Where `ignore_pattern` is given, files whose path holds it are left out.
pub fn check_dirty_files(status_output: &str, ignore_pattern: Option<&str>) -> (dirty: DirtyFiles)
    ensures
        views_of(dirty.modified@) == files_of_class(
            lines(status_output@),
            optional_text(ignore_pattern),
            FileClass::Modified,
        ),
        views_of(dirty.untracked@) == files_of_class(
            lines(status_output@),
            optional_text(ignore_pattern),
            FileClass::Untracked,
        ),
        views_of(dirty.staged@) == files_of_class(
            lines(status_output@),
            optional_text(ignore_pattern),
            FileClass::Staged,
        ),
{
    let chars = to_chars(status_output);
    let status_lines = split_lines(&chars);
    let ghost ignore = optional_text(ignore_pattern);
    let mut modified: Vec<String> = Vec::new();
    let mut untracked: Vec<String> = Vec::new();
    let mut staged: Vec<String> = Vec::new();
    let mut i: usize = 0;
    proof {
        assert(texts(status_lines@).take(0) =~= Seq::<Seq<char>>::empty());
        assert(views_of(modified@) =~= Seq::<Seq<char>>::empty());
        assert(views_of(untracked@) =~= Seq::<Seq<char>>::empty());
        assert(views_of(staged@) =~= Seq::<Seq<char>>::empty());
    }
    while i < status_lines.len()
        invariant
            i <= status_lines.len(),
            ignore == optional_text(ignore_pattern),
            texts(status_lines@) == lines(status_output@),
            views_of(modified@) == files_of_class(
                texts(status_lines@).take(i as int),
                ignore,
                FileClass::Modified,
            ),
            views_of(untracked@) == files_of_class(
                texts(status_lines@).take(i as int),
                ignore,
                FileClass::Untracked,
            ),
            views_of(staged@) == files_of_class(
                texts(status_lines@).take(i as int),
                ignore,
                FileClass::Staged,
            ),
        decreases status_lines.len() - i,
    {
        let line = &status_lines[i];
        proof {
            let upto = texts(status_lines@).take(i + 1);
            assert(upto.drop_last() =~= texts(status_lines@).take(i as int));
            assert(upto.last() == line@);
        }
        i += 1;
        if line.len() < 3 {
            continue ;
        }
        let status = slice(line, 0, 2);
        assert(status@ =~= status_of(line@));
        let path = path_of(line);
        let ignored = match ignore_pattern {
            Some(pattern) => contains_text(&path, &to_chars(pattern)),
            None => false,
        };
        if ignored {
            continue ;
        }
        match classify(&status) {
            FileClass::Untracked => push_text(&mut untracked, &path),
            FileClass::Modified => push_text(&mut modified, &path),
            FileClass::Staged => push_text(&mut staged, &path),
        }
    }
    proof {
        assert(texts(status_lines@).take(status_lines.len() as int) =~= texts(status_lines@));
    }
    DirtyFiles { modified, untracked, staged }
}

/// What staging did with the files that git reported as changed.
#[derive(Debug)]
pub struct StagingResult {
    /// The files that were added to the index.
    pub staged: Vec<String>,
    /// The files that were left out because their path is excluded.
    pub excluded: Vec<String>,
    /// The files that git refused to add.
    pub failed: Vec<String>,
}

impl Default for StagingResult {
    fn default() -> (empty: Self)
        ensures
            empty.staged@.len() == 0,
            empty.excluded@.len() == 0,
            empty.failed@.len() == 0,
    {
        StagingResult { staged: Vec::new(), excluded: Vec::new(), failed: Vec::new() }
    }
}

impl StagingResult {
    /// Notes what became of one file that git was asked to add: it is staged
    /// if git added it and failed if not.
    pub fn record(&mut self, file: &str, added: bool)
        ensures
            views_of(final(self).staged@) == if added {
                views_of(old(self).staged@).push(file@)
            } else {
                views_of(old(self).staged@)
            },
            views_of(final(self).failed@) == if added {
                views_of(old(self).failed@)
            } else {
                views_of(old(self).failed@).push(file@)
            },
            final(self).excluded == old(self).excluded,
    {
        let chars = to_chars(file);
        if added {
            push_text(&mut self.staged, &chars);
        } else {
            push_text(&mut self.failed, &chars);
        }
    }
}

/// Whether a line of git's short status reports a file that is not staged yet:
/// one whose status begins with a space, or an untracked one.
pub open spec fn is_unstaged_entry(line: Seq<char>) -> bool {
    line.len() >= 3 && (line[0] == ' ' || status_of(line) == "??"@)
}

/// The paths of the files, among those not staged yet, that are excluded from
/// staging (`excluded` true) or that are to be added (`excluded` false), in
/// the order of the lines.
pub open spec fn files_for_staging(status_lines: Seq<Seq<char>>, excluded: bool) -> Seq<Seq<char>>
    decreases status_lines.len(),
{
    if status_lines.len() == 0 {
        Seq::empty()
    } else {
        let before = files_for_staging(status_lines.drop_last(), excluded);
        let line = status_lines.last();
        if is_unstaged_entry(line) && is_excluded(file_of(line)) == excluded {
            before.push(file_of(line))
        } else {
            before
        }
    }
}

/// Staging sorts every file that is not staged yet by the exclusion patterns
/// alone: a file whose path is excluded is listed as excluded, any other is
/// to be added, and neither list holds a file of the other kind.
pub proof fn lemma_staging_follows_exclusion(status_lines: Seq<Seq<char>>)
    ensures
        forall|i: int|
            0 <= i < status_lines.len() && is_unstaged_entry(#[trigger] status_lines[i])
                ==> files_for_staging(status_lines, is_excluded(file_of(status_lines[i]))).contains(
                file_of(status_lines[i]),
            ),
        forall|k: int|
            0 <= k < files_for_staging(status_lines, true).len() ==> is_excluded(
                #[trigger] files_for_staging(status_lines, true)[k],
            ),
        forall|k: int|
            0 <= k < files_for_staging(status_lines, false).len() ==> !is_excluded(
                #[trigger] files_for_staging(status_lines, false)[k],
            ),
    decreases status_lines.len(),
{
    if status_lines.len() > 0 {
        let init = status_lines.drop_last();
        let line = status_lines.last();
        lemma_staging_follows_exclusion(init);
        assert forall|i: int|
            0 <= i < status_lines.len() && is_unstaged_entry(
                #[trigger] status_lines[i],
            ) implies files_for_staging(
            status_lines,
            is_excluded(file_of(status_lines[i])),
        ).contains(file_of(status_lines[i])) by {
            let kind = is_excluded(file_of(status_lines[i]));
            let before = files_for_staging(init, kind);
            let all = files_for_staging(status_lines, kind);
            if i < init.len() {
                assert(init[i] == status_lines[i]);
                assert(before.contains(file_of(status_lines[i])));
                let j = choose|j: int| 0 <= j < before.len() && before[j] == file_of(status_lines[i]);
                assert(all[j] == before[j]);
            } else {
                assert(all == before.push(file_of(line)));
                assert(all[all.len() - 1] == file_of(line));
            }
        }
        assert forall|k: int| 0 <= k < files_for_staging(status_lines, true).len() implies is_excluded(
            #[trigger] files_for_staging(status_lines, true)[k],
        ) by {
            let before = files_for_staging(init, true);
            if k < before.len() {
                assert(files_for_staging(status_lines, true)[k] == before[k]);
            }
        }
        assert forall|k: int|
            0 <= k < files_for_staging(status_lines, false).len() implies !is_excluded(
            #[trigger] files_for_staging(status_lines, false)[k],
        ) by {
            let before = files_for_staging(init, false);
            if k < before.len() {
                assert(files_for_staging(status_lines, false)[k] == before[k]);
            }
        }
    }
}

/// Decides what to stage from what `git status --porcelain` printed. Returns
/// the files to add, and a result that lists the excluded files and has
/// nothing staged or failed yet: the outcome of each addition is to be noted
/// in it with `StagingResult::record`.
pub fn stage_files(status_output: &str) -> (plan: (Vec<String>, StagingResult))
    ensures
        views_of(plan.0@) == files_for_staging(lines(status_output@), false),
        views_of(plan.1.excluded@) == files_for_staging(lines(status_output@), true),
        plan.1.staged@.len() == 0,
        plan.1.failed@.len() == 0,
{
    let chars = to_chars(status_output);
    let status_lines = split_lines(&chars);
    let untracked_mark = to_chars("??");
    let mut to_add: Vec<String> = Vec::new();
    let mut excluded: Vec<String> = Vec::new();
    let mut i: usize = 0;
    proof {
        assert(texts(status_lines@).take(0) =~= Seq::<Seq<char>>::empty());
        assert(views_of(to_add@) =~= Seq::<Seq<char>>::empty());
        assert(views_of(excluded@) =~= Seq::<Seq<char>>::empty());
    }
    while i < status_lines.len()
        invariant
            i <= status_lines.len(),
            untracked_mark@ == "??"@,
            texts(status_lines@) == lines(status_output@),
            views_of(to_add@) == files_for_staging(texts(status_lines@).take(i as int), false),
            views_of(excluded@) == files_for_staging(texts(status_lines@).take(i as int), true),
        decreases status_lines.len() - i,
    {
        let line = &status_lines[i];
        proof {
            let upto = texts(status_lines@).take(i + 1);
            assert(upto.drop_last() =~= texts(status_lines@).take(i as int));
            assert(upto.last() == line@);
        }
        i += 1;
        if line.len() < 3 {
            continue ;
        }
        let status = slice(line, 0, 2);
        assert(status@ =~= status_of(line@));
        if !(line[0] == ' ' || same_text(&status, &untracked_mark)) {
            continue ;
        }
        let path = path_of(line);
        if excluded_path(&path) {
            push_text(&mut excluded, &path);
        } else {
            push_text(&mut to_add, &path);
        }
    }
    proof {
        assert(texts(status_lines@).take(status_lines.len() as int) =~= texts(status_lines@));
    }
    (to_add, StagingResult { staged: Vec::new(), excluded, failed: Vec::new() })
}

/// Whether staging goes on although git failed to add the plan directory: it
/// does where git only complains that the directory matched no files, which
/// is so as long as the directory does not exist.
pub fn may_lack_plan_dir(add_error: &str) -> (forgiven: bool)
    ensures
        forgiven == contains(add_error@, "did not match any files"@),
{
    contains_text(&to_chars(add_error), &to_chars("did not match any files"))
}

/// The message of a commit: the summary alone where there is no description,
/// else the summary, an empty line and the description.
pub open spec fn commit_message_text(summary: Seq<char>, description: Seq<char>) -> Seq<char> {
    if description.len() == 0 {
        summary
    } else {
        summary + "\n\n"@ + description
    }
}

/// Composes the message of a commit from its summary and its description.
pub fn commit_message(summary: &str, description: &str) -> (message: String)
    ensures
        message@ == commit_message_text(summary@, description@),
{
    let mut out = to_chars(summary);
    let body = to_chars(description);
    if body.len() > 0 {
        push_str(&mut out, "\n\n");
        push_all(&mut out, &body);
    }
    from_chars(&out)
}

/// What git printed, without the white space around it.
pub fn trimmed_output(output: &str) -> (text: String)
    ensures
        text@ == trim(output@),
{
    let chars = to_chars(output);
    let kept = trimmed(&chars);
    from_chars(&kept)
}

/// The label of the current branch: the name that `git branch --show-current`
/// printed, or, where it printed none because HEAD is detached, a note with
/// the short hash that `git rev-parse --short HEAD` printed.
pub open spec fn branch_label_text(branch_output: Seq<char>, head_output: Seq<char>) -> Seq<char> {
    if trim(branch_output).len() == 0 {
        "(detached HEAD at "@ + trim(head_output) + ")"@
    } else {
        trim(branch_output)
    }
}

/// Whether `git branch --show-current` printed no name, so that the short hash
/// of HEAD is needed to label the branch.
pub fn is_detached(branch_output: &str) -> (detached: bool)
    ensures
        detached == (trim(branch_output@).len() == 0),
{
    let chars = to_chars(branch_output);
    trimmed(&chars).len() == 0
}

/// The label of the current branch. `head_output` is read only where HEAD is
/// detached.
pub fn branch_label(branch_output: &str, head_output: &str) -> (label: String)
    ensures
        label@ == branch_label_text(branch_output@, head_output@),
{
    let branch = trimmed(&to_chars(branch_output));
    if branch.len() == 0 {
        let mut out = to_chars("(detached HEAD at ");
        let sha = trimmed(&to_chars(head_output));
        push_all(&mut out, &sha);
        push_str(&mut out, ")");
        from_chars(&out)
    } else {
        from_chars(&branch)
    }
}

} // verus!
