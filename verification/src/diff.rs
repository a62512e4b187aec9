//! Unified diffs: reading them into hunks and applying the hunks to a text.
//!
//! A hunk is a pair of blocks, the text to look for and the text to put in
//! its place. Context lines of the diff belong to both blocks.

use crate::text::{
    char_index_at, chars_before, decimal, decimal_text, find, find_in, from_chars, join, join_texts,
    lemma_chars_before, lemma_chars_before_monotone, lemma_encode_concat, lemma_find_from,
    lemma_normalize_utf8_len, lemma_prefix_ends_at_char_boundary, lemma_utf8_len_take, lines,
    normalize_newlines, normalized, push_all, push_range, push_str, slice, split_lines, starts_with,
    string_of_range, texts, to_chars, utf8_len, utf8_len_of_prefix,
};
use vstd::prelude::*;
use vstd::utf8::{encode_utf8, is_char_boundary};

verus! {

/// A hunk as contracts see it: the old block and the new block.
pub type HunkText = (Seq<char>, Seq<char>);

/// The hunks that a vector of string pairs stands for.
pub open spec fn hunk_texts(hunks: Seq<(String, String)>) -> Seq<HunkText> {
    Seq::new(hunks.len(), |i: int| (hunks[i].0@, hunks[i].1@))
}

/// What the parser has gathered after some lines of a diff.
pub struct ParseState {
    /// The hunks that are complete.
    pub hunks: Seq<HunkText>,
    /// The lines of the old block of the hunk being read.
    pub old_lines: Seq<Seq<char>>,
    /// The lines of the new block of the hunk being read.
    pub new_lines: Seq<Seq<char>>,
    /// Whether a hunk is being read.
    pub in_hunk: bool,
}

/// A line that belongs to a diff's file headers and carries no hunk content.
pub open spec fn is_header_line(line: Seq<char>) -> bool {
    ||| "diff "@.is_prefix_of(line)
    ||| "index "@.is_prefix_of(line)
    ||| "new file mode"@.is_prefix_of(line)
    ||| "deleted file mode"@.is_prefix_of(line)
    ||| "--- "@.is_prefix_of(line)
    ||| "+++ "@.is_prefix_of(line)
}

/// A line that opens a hunk.
pub open spec fn is_hunk_header(line: Seq<char>) -> bool {
    "@@"@.is_prefix_of(line)
}

/// A line present on both sides.
pub open spec fn is_context_line(line: Seq<char>) -> bool {
    line.len() > 0 && line[0] == ' '
}

/// A line present only on the new side.
pub open spec fn is_added_line(line: Seq<char>) -> bool {
    line.len() > 0 && line[0] == '+' && !"+++"@.is_prefix_of(line)
}

/// A line present only on the old side.
pub open spec fn is_removed_line(line: Seq<char>) -> bool {
    line.len() > 0 && line[0] == '-' && !"---"@.is_prefix_of(line)
}

/// The state before the first line.
pub open spec fn initial_state() -> ParseState {
    ParseState {
        hunks: Seq::empty(),
        old_lines: Seq::empty(),
        new_lines: Seq::empty(),
        in_hunk: false,
    }
}

/// Closes the hunk being read: if any line was gathered for it, the two blocks
/// are the gathered lines joined by line feeds.
pub open spec fn close_hunk(st: ParseState) -> ParseState {
    if st.in_hunk && (st.old_lines.len() > 0 || st.new_lines.len() > 0) {
        ParseState {
            hunks: st.hunks.push((join(st.old_lines, seq!['\n']), join(st.new_lines, seq!['\n']))),
            old_lines: Seq::empty(),
            new_lines: Seq::empty(),
            in_hunk: st.in_hunk,
        }
    } else {
        st
    }
}

/// Files a line of hunk content under the side or sides it belongs to, without
/// its marker; any other line leaves the state as it is.
pub open spec fn gather_line(st: ParseState, line: Seq<char>) -> ParseState {
    if is_context_line(line) {
        ParseState {
            old_lines: st.old_lines.push(line.drop_first()),
            new_lines: st.new_lines.push(line.drop_first()),
            ..st
        }
    } else if is_added_line(line) {
        ParseState { new_lines: st.new_lines.push(line.drop_first()), ..st }
    } else if is_removed_line(line) {
        ParseState { old_lines: st.old_lines.push(line.drop_first()), ..st }
    } else {
        st
    }
}

/// The state after one more line.
pub open spec fn read_line(st: ParseState, line: Seq<char>) -> ParseState {
    if is_header_line(line) {
        st
    } else if is_hunk_header(line) {
        ParseState { in_hunk: true, ..close_hunk(st) }
    } else if st.in_hunk {
        gather_line(st, line)
    } else if is_context_line(line) || is_added_line(line) || is_removed_line(line) {
        gather_line(ParseState { in_hunk: true, ..st }, line)
    } else {
        st
    }
}

/// The state that `st` becomes by reading `diff_lines` one after the other.
pub open spec fn read_from(st: ParseState, diff_lines: Seq<Seq<char>>) -> ParseState
    decreases diff_lines.len(),
{
    if diff_lines.len() == 0 {
        st
    } else {
        read_line(read_from(st, diff_lines.drop_last()), diff_lines.last())
    }
}

/// The state after all of `diff_lines`.
pub open spec fn read_lines(diff_lines: Seq<Seq<char>>) -> ParseState {
    read_from(initial_state(), diff_lines)
}

/// The hunks of a unified diff, in the order in which the diff gives them.
pub open spec fn parsed_hunks(diff: Seq<char>) -> Seq<HunkText> {
    close_hunk(read_lines(lines(diff))).hunks
}

/// Appends to `hunks` the hunk whose blocks are the gathered lines joined by
/// line feeds.
fn push_hunk(
    hunks: &mut Vec<(String, String)>,
    old_lines: &Vec<Vec<char>>,
    new_lines: &Vec<Vec<char>>,
)
    ensures
        hunk_texts(final(hunks)@) == hunk_texts(old(hunks)@).push(
            (join(texts(old_lines@), seq!['\n']), join(texts(new_lines@), seq!['\n'])),
        ),
{
    let newline: Vec<char> = vec!['\n'];
    assert(newline@ =~= seq!['\n']);
    let old_block = from_chars(&join_texts(old_lines, &newline));
    let new_block = from_chars(&join_texts(new_lines, &newline));
    proof {
        assert(hunk_texts(hunks@.push((old_block, new_block))) =~= hunk_texts(hunks@).push(
            (old_block@, new_block@),
        ));
    }
    hunks.push((old_block, new_block));
}

/// Appends to `gathered` the line `line` without its marker.
fn push_unmarked(gathered: &mut Vec<Vec<char>>, line: &Vec<char>)
    requires
        line.len() > 0,
    ensures
        texts(final(gathered)@) == texts(old(gathered)@).push(line@.drop_first()),
{
    let rest = slice(line, 1, line.len());
    proof {
        assert(rest@ =~= line@.drop_first());
        assert(texts(gathered@.push(rest)) =~= texts(gathered@).push(rest@));
    }
    gathered.push(rest);
}

/// Reads a unified diff into its hunks, each a pair of the old block and the
/// new block.
pub fn parse_unified_diff_hunks(diff: &str) -> (hunks: Vec<(String, String)>)
    ensures
        hunk_texts(hunks@) == parsed_hunks(diff@),
{
    let diff_lines = split_lines(&to_chars(diff));
    let diff_mark = to_chars("diff ");
    let index_mark = to_chars("index ");
    let new_file_mark = to_chars("new file mode");
    let deleted_file_mark = to_chars("deleted file mode");
    let old_name_mark = to_chars("--- ");
    let new_name_mark = to_chars("+++ ");
    let hunk_mark = to_chars("@@");
    let three_minus = to_chars("---");
    let three_plus = to_chars("+++");

    let mut hunks: Vec<(String, String)> = Vec::new();
    let mut old_lines: Vec<Vec<char>> = Vec::new();
    let mut new_lines: Vec<Vec<char>> = Vec::new();
    let mut in_hunk = false;

    let mut i: usize = 0;
    proof {
        assert(texts(diff_lines@).take(0) =~= Seq::<Seq<char>>::empty());
        assert(hunk_texts(hunks@) =~= Seq::<HunkText>::empty());
        assert(texts(old_lines@) =~= Seq::<Seq<char>>::empty());
        assert(texts(new_lines@) =~= Seq::<Seq<char>>::empty());
    }
    while i < diff_lines.len()
        invariant
            i <= diff_lines.len(),
            texts(diff_lines@) == lines(diff@),
            diff_mark@ == "diff "@,
            index_mark@ == "index "@,
            new_file_mark@ == "new file mode"@,
            deleted_file_mark@ == "deleted file mode"@,
            old_name_mark@ == "--- "@,
            new_name_mark@ == "+++ "@,
            hunk_mark@ == "@@"@,
            three_minus@ == "---"@,
            three_plus@ == "+++"@,
            read_lines(texts(diff_lines@).take(i as int)) == (ParseState {
                hunks: hunk_texts(hunks@),
                old_lines: texts(old_lines@),
                new_lines: texts(new_lines@),
                in_hunk,
            }),
        decreases diff_lines.len() - i,
    {
        let line = &diff_lines[i];
        proof {
            let upto = texts(diff_lines@).take(i + 1);
            assert(upto.drop_last() =~= texts(diff_lines@).take(i as int));
            assert(upto.last() == line@);
        }
        i += 1;

        if starts_with(line, &diff_mark) || starts_with(line, &index_mark) || starts_with(
            line,
            &new_file_mark,
        ) || starts_with(line, &deleted_file_mark) || starts_with(line, &old_name_mark)
            || starts_with(line, &new_name_mark) {
            continue ;
        }
        if starts_with(line, &hunk_mark) {
            if in_hunk && (old_lines.len() > 0 || new_lines.len() > 0) {
                push_hunk(&mut hunks, &old_lines, &new_lines);
                old_lines = Vec::new();
                new_lines = Vec::new();
                proof {
                    assert(texts(old_lines@) =~= Seq::<Seq<char>>::empty());
                    assert(texts(new_lines@) =~= Seq::<Seq<char>>::empty());
                }
            }
            in_hunk = true;
            continue ;
        }
        let context = line.len() > 0 && line[0] == ' ';
        let added = line.len() > 0 && line[0] == '+' && !starts_with(line, &three_plus);
        let removed = line.len() > 0 && line[0] == '-' && !starts_with(line, &three_minus);
        if !in_hunk && !(context || added || removed) {
            continue ;
        }
        in_hunk = true;
        if context {
            push_unmarked(&mut old_lines, line);
            push_unmarked(&mut new_lines, line);
        } else if added {
            push_unmarked(&mut new_lines, line);
        } else if removed {
            push_unmarked(&mut old_lines, line);
        }
    }
    proof {
        assert(texts(diff_lines@).take(diff_lines.len() as int) =~= texts(diff_lines@));
    }
    if in_hunk && (old_lines.len() > 0 || new_lines.len() > 0) {
        push_hunk(&mut hunks, &old_lines, &new_lines);
    }
    hunks
}

/// Why a diff could not be applied.
#[derive(Debug)]
pub enum DiffError {
    /// The diff holds no hunk.
    InvalidDiff,
    /// The byte range to search does not lie within the text: `start` or `end`
    /// is beyond `len`, the length of the normalized text in bytes, or `start`
    /// is beyond `end`.
    RangeOutOfBounds { start: usize, end: usize, len: usize },
    /// The old block of the hunk at position `hunk_index` does not occur in the
    /// region searched. `preview` is the beginning of that block, and `range`
    /// the byte range searched where the caller had limited it.
    PatternNotFound { hunk_index: usize, preview: String, range: Option<(usize, usize)> },
}

/// A `DiffError` as contracts see it.
pub enum DiffFailure {
    InvalidDiff,
    RangeOutOfBounds { start: int, end: int, len: int },
    PatternNotFound { hunk_index: int, preview: Seq<char>, range: Option<(int, int)> },
}

impl View for DiffError {
    type V = DiffFailure;

    open spec fn view(&self) -> DiffFailure {
        match self {
            DiffError::InvalidDiff => DiffFailure::InvalidDiff,
            DiffError::RangeOutOfBounds { start, end, len } => DiffFailure::RangeOutOfBounds {
                start: *start as int,
                end: *end as int,
                len: *len as int,
            },
            DiffError::PatternNotFound { hunk_index, preview, range } => {
                DiffFailure::PatternNotFound {
                    hunk_index: *hunk_index as int,
                    preview: preview@,
                    range: match range {
                        Some((from, to)) => Some((*from as int, *to as int)),
                        None => None,
                    },
                }
            },
        }
    }
}

/// The text of a `DiffError`.
pub open spec fn diff_error_text(error: DiffFailure) -> Seq<char> {
    match error {
        DiffFailure::InvalidDiff => "Invalid diff format. Expected unified diff with @@ hunks or +/- with context lines"@,
        DiffFailure::RangeOutOfBounds { start, end, len } => if start > len {
            "start position "@ + decimal(start as nat) + " exceeds file length "@ + decimal(
                len as nat,
            )
        } else if end > len {
            "end position "@ + decimal(end as nat) + " exceeds file length "@ + decimal(len as nat)
        } else {
            "start position "@ + decimal(start as nat) + " is greater than end position "@
                + decimal(end as nat)
        },
        DiffFailure::PatternNotFound { hunk_index, preview, range } => "Pattern not found in file"@
            + (match range {
            Some((from, to)) => " (within character range "@ + decimal(from as nat) + ":"@
                + decimal(to as nat) + ")"@,
            None => Seq::empty(),
        }) + "\nHunk "@ + decimal((hunk_index + 1) as nat) + " failed. Searched for:\n"@ + preview,
    }
}

impl DiffError {
    /// The error in words. Hunks are counted from one.
    pub fn message(&self) -> (text: String)
        ensures
            text@ == diff_error_text(self@),
    {
        let mut out: Vec<char> = Vec::new();
        match self {
            DiffError::InvalidDiff => {
                push_str(
                    &mut out,
                    "Invalid diff format. Expected unified diff with @@ hunks or +/- with context lines",
                );
            },
            DiffError::RangeOutOfBounds { start, end, len } => {
                if *start > *len {
                    push_str(&mut out, "start position ");
                    push_all(&mut out, &decimal_text(*start as u128));
                    push_str(&mut out, " exceeds file length ");
                    push_all(&mut out, &decimal_text(*len as u128));
                } else if *end > *len {
                    push_str(&mut out, "end position ");
                    push_all(&mut out, &decimal_text(*end as u128));
                    push_str(&mut out, " exceeds file length ");
                    push_all(&mut out, &decimal_text(*len as u128));
                } else {
                    push_str(&mut out, "start position ");
                    push_all(&mut out, &decimal_text(*start as u128));
                    push_str(&mut out, " is greater than end position ");
                    push_all(&mut out, &decimal_text(*end as u128));
                }
            },
            DiffError::PatternNotFound { hunk_index, preview, range } => {
                push_str(&mut out, "Pattern not found in file");
                match range {
                    Some((from, to)) => {
                        push_str(&mut out, " (within character range ");
                        push_all(&mut out, &decimal_text(*from as u128));
                        push_str(&mut out, ":");
                        push_all(&mut out, &decimal_text(*to as u128));
                        push_str(&mut out, ")");
                    },
                    None => {
                        assert(out@ + Seq::<char>::empty() =~= out@);
                    },
                }
                push_str(&mut out, "\nHunk ");
                push_all(&mut out, &decimal_text(*hunk_index as u128 + 1));
                push_str(&mut out, " failed. Searched for:\n");
                push_str(&mut out, preview.as_str());
            },
        }
        from_chars(&out)
    }
}

/// The longest preview shown of a block that was not found, in characters.
pub const PREVIEW_CHARS: usize = 200;

/// The beginning of a block as an error shows it: the block itself where it
/// has at most `PREVIEW_CHARS` characters, else that many characters of it and
/// three dots.
pub open spec fn preview_of(block: Seq<char>) -> Seq<char> {
    if block.len() > PREVIEW_CHARS {
        block.take(PREVIEW_CHARS as int) + "..."@
    } else {
        block
    }
}

/// `text` with the first occurrence of `old_block` replaced by `new_block`, if
/// there is one.
pub open spec fn replace_first(text: Seq<char>, old_block: Seq<char>, new_block: Seq<char>)
    -> Option<Seq<char>> {
    match find(text, old_block) {
        Some(pos) => Some(text.take(pos) + new_block + text.skip(pos + old_block.len())),
        None => None,
    }
}

/// `region` after the hunks were applied one after the other, each to what the
/// one before it left; or the position of the first hunk whose old block does
/// not occur.
pub open spec fn apply_hunks(region: Seq<char>, hunks: Seq<HunkText>) -> Result<Seq<char>, int>
    decreases hunks.len(),
{
    if hunks.len() == 0 {
        Ok(region)
    } else {
        match apply_hunks(region, hunks.drop_last()) {
            Ok(patched) => match replace_first(patched, hunks.last().0, hunks.last().1) {
                Some(next) => Ok(next),
                None => Err(hunks.len() - 1),
            },
            Err(index) => Err(index),
        }
    }
}

/// The first byte offset to search from: `start`, or the beginning.
pub open spec fn range_start(start: Option<usize>) -> int {
    match start {
        Some(start) => start as int,
        None => 0,
    }
}

/// The byte offset at which the search ends: `end`, or the end of the text.
pub open spec fn range_end(norm: Seq<char>, end: Option<usize>) -> int {
    match end {
        Some(end) => end as int,
        None => utf8_len(norm) as int,
    }
}

/// What applying `diff` to `content` within the byte range from `start` to
/// `end` gives.
///
/// The line endings of `content` are normalized first, and the two offsets
/// count bytes of the normalized text. Each is moved forward to the next
/// character boundary. The hunks are applied in order to the region between
/// the two boundaries, and the text before and after the region is kept.
pub open spec fn applied(
    content: Seq<char>,
    diff: Seq<char>,
    start: Option<usize>,
    end: Option<usize>,
) -> Result<Seq<char>, DiffFailure> {
    let hunks = parsed_hunks(diff);
    let norm = normalize_newlines(content);
    let len = utf8_len(norm) as int;
    let from = range_start(start);
    let to = range_end(norm, end);
    if hunks.len() == 0 {
        Err(DiffFailure::InvalidDiff)
    } else if from > len || to > len || from > to {
        Err(DiffFailure::RangeOutOfBounds { start: from, end: to, len })
    } else {
        let first = chars_before(norm, from);
        let last = chars_before(norm, to);
        match apply_hunks(norm.subrange(first, last), hunks) {
            Ok(region) => Ok(norm.take(first) + region + norm.skip(last)),
            Err(index) => Err(
                DiffFailure::PatternNotFound {
                    hunk_index: index,
                    preview: preview_of(hunks[index].0),
                    range: if start is Some || end is Some {
                        Some((utf8_len(norm.take(first)) as int, utf8_len(norm.take(last)) as int))
                    } else {
                        None
                    },
                },
            ),
        }
    }
}

/// The beginning of `block` as an error shows it.
fn preview(block: &Vec<char>) -> (text: String)
    ensures
        text@ == preview_of(block@),
{
    if block.len() > PREVIEW_CHARS {
        let mut shown = slice(block, 0, PREVIEW_CHARS);
        push_str(&mut shown, "...");
        from_chars(&shown)
    } else {
        from_chars(block)
    }
}

/// Applies a unified diff to `file_content`, looking for each hunk's old block
/// only between the byte offsets `start_char` and `end_char` of the text with
/// normalized line endings. An offset left out stands for the beginning or the
/// end of the text.
pub fn apply_unified_diff_to_string(
    file_content: &str,
    diff: &str,
    start_char: Option<usize>,
    end_char: Option<usize>,
) -> (result: Result<String, DiffError>)
    ensures
        match result {
            Ok(patched) => applied(file_content@, diff@, start_char, end_char) == Ok::<
                Seq<char>,
                DiffFailure,
            >(patched@),
            Err(error) => applied(file_content@, diff@, start_char, end_char) == Err::<
                Seq<char>,
                DiffFailure,
            >(error@),
        },
{
    let hunks = parse_unified_diff_hunks(diff);
    if hunks.len() == 0 {
        return Err(DiffError::InvalidDiff);
    }
    let content = to_chars(file_content);
    let norm = normalized(&content);
    // The normalized text is no longer than the given one, whose length in
    // bytes is a `usize`.
    let given_len = file_content.as_bytes().len();
    proof {
        lemma_normalize_utf8_len(file_content@);
        assert(given_len == utf8_len(file_content@));
        assert(norm@.take(norm@.len() as int) =~= norm@);
    }
    let len = utf8_len_of_prefix(&norm, norm.len());
    let from: usize = match start_char {
        Some(start) => start,
        None => 0,
    };
    let to: usize = match end_char {
        Some(end) => end,
        None => len,
    };
    if from > len || to > len || from > to {
        return Err(DiffError::RangeOutOfBounds { start: from, end: to, len });
    }
    let first = char_index_at(&norm, from);
    let last = char_index_at(&norm, to);
    proof {
        lemma_chars_before_monotone(norm@, from as int, to as int);
    }
    let mut region = slice(&norm, first, last);
    let ghost region0 = region@;
    let ghost spec_hunks = hunk_texts(hunks@);

    let mut k: usize = 0;
    proof {
        assert(spec_hunks.take(0) =~= Seq::<HunkText>::empty());
    }
    while k < hunks.len()
        invariant
            k <= hunks.len(),
            spec_hunks == hunk_texts(hunks@),
            spec_hunks == parsed_hunks(diff@),
            norm@ == normalize_newlines(file_content@),
            utf8_len(norm@) <= usize::MAX,
            len == utf8_len(norm@),
            from == range_start(start_char),
            to == range_end(norm@, end_char),
            !(from > len || to > len || from > to),
            first == chars_before(norm@, from as int),
            last == chars_before(norm@, to as int),
            first <= last <= norm.len(),
            region0 == norm@.subrange(first as int, last as int),
            apply_hunks(region0, spec_hunks.take(k as int)) == Ok::<Seq<char>, int>(region@),
        decreases hunks.len() - k,
    {
        let old_block = to_chars(hunks[k].0.as_str());
        let new_block = to_chars(hunks[k].1.as_str());
        proof {
            let upto = spec_hunks.take(k + 1);
            assert(upto.drop_last() =~= spec_hunks.take(k as int));
            assert(upto.last() == (old_block@, new_block@));
        }
        match find_in(&region, &old_block) {
            Some(pos) => {
                proof {
                    lemma_find_from(region@, old_block@, 0);
                }
                let mut next = slice(&region, 0, pos);
                push_all(&mut next, &new_block);
                push_range(&mut next, &region, pos + old_block.len(), region.len());
                proof {
                    assert(next@ =~= region@.take(pos as int) + new_block@ + region@.skip(
                        pos + old_block@.len(),
                    ));
                }
                region = next;
            },
            None => {
                let shown = preview(&old_block);
                let range = if start_char.is_some() || end_char.is_some() {
                    Some((utf8_len_of_prefix(&norm, first), utf8_len_of_prefix(&norm, last)))
                } else {
                    None
                };
                proof {
                    lemma_apply_hunks_fails_on(region0, spec_hunks, k as int);
                }
                return Err(DiffError::PatternNotFound { hunk_index: k, preview: shown, range });
            },
        }
        k += 1;
    }
    proof {
        assert(spec_hunks.take(hunks.len() as int) =~= spec_hunks);
    }
    let mut out = slice(&norm, 0, first);
    push_all(&mut out, &region);
    push_range(&mut out, &norm, last, norm.len());
    proof {
        assert(out@ =~= norm@.take(first as int) + region@ + norm@.skip(last as int));
    }
    Ok(from_chars(&out))
}

/// Once a prefix of the hunks fails at a position, the whole list fails there.
pub proof fn lemma_apply_hunks_fails_on(region: Seq<char>, hunks: Seq<HunkText>, index: int)
    requires
        0 <= index < hunks.len(),
        apply_hunks(region, hunks.take(index + 1)) == Err::<Seq<char>, int>(index),
    ensures
        apply_hunks(region, hunks) == Err::<Seq<char>, int>(index),
    decreases hunks.len(),
{
    if hunks.len() == index + 1 {
        assert(hunks.take(index + 1) =~= hunks);
    } else {
        assert(hunks.drop_last().take(index + 1) =~= hunks.take(index + 1));
        lemma_apply_hunks_fails_on(region, hunks.drop_last(), index);
    }
}

/// Applying a diff never touches what lies outside the range it was given.
///
/// The two ends of the range are moved forward to character boundaries of the
/// normalized text, however they fall within a character. Where the diff
/// applies, the bytes of the result before the first boundary and the bytes
/// after the second are those of the normalized text.
pub proof fn lemma_apply_keeps_text_outside_range(
    content: Seq<char>,
    diff: Seq<char>,
    start: Option<usize>,
    end: Option<usize>,
)
    requires
        applied(content, diff, start, end) is Ok,
    ensures
        ({
            let norm = normalize_newlines(content);
            let bytes = encode_utf8(norm);
            let from = utf8_len(norm.take(chars_before(norm, range_start(start)))) as int;
            let to = utf8_len(norm.take(chars_before(norm, range_end(norm, end)))) as int;
            let patched = encode_utf8(applied(content, diff, start, end)->Ok_0);
            &&& range_start(start) <= from <= to <= bytes.len()
            &&& range_end(norm, end) <= to
            &&& is_char_boundary(bytes, from)
            &&& is_char_boundary(bytes, to)
            &&& patched.len() >= from + (bytes.len() - to)
            &&& patched.take(from) == bytes.take(from)
            &&& patched.skip(patched.len() - (bytes.len() - to)) == bytes.skip(to)
        }),
{
    let norm = normalize_newlines(content);
    let first = chars_before(norm, range_start(start));
    let last = chars_before(norm, range_end(norm, end));
    let region = apply_hunks(norm.subrange(first, last), parsed_hunks(diff))->Ok_0;
    lemma_chars_before(norm, range_start(start));
    lemma_chars_before(norm, range_end(norm, end));
    lemma_chars_before_monotone(norm, range_start(start), range_end(norm, end));
    lemma_text_around_region(norm, first, last, region);
}

/// A text whose part between two characters was replaced has, in bytes, the
/// beginning and the end of the text it was made from, and both ends of the
/// part lie at character boundaries.
proof fn lemma_text_around_region(norm: Seq<char>, first: int, last: int, region: Seq<char>)
    requires
        0 <= first <= last <= norm.len(),
    ensures
        ({
            let bytes = encode_utf8(norm);
            let from = utf8_len(norm.take(first)) as int;
            let to = utf8_len(norm.take(last)) as int;
            let patched = encode_utf8(norm.take(first) + region + norm.skip(last));
            &&& from <= to <= bytes.len()
            &&& is_char_boundary(bytes, from)
            &&& is_char_boundary(bytes, to)
            &&& patched.len() >= from + (bytes.len() - to)
            &&& patched.take(from) == bytes.take(from)
            &&& patched.skip(patched.len() - (bytes.len() - to)) == bytes.skip(to)
        }),
{
    let bytes = encode_utf8(norm);
    let head = encode_utf8(norm.take(first));
    let tail = encode_utf8(norm.skip(last));
    let middle = encode_utf8(region);
    let patched = encode_utf8(norm.take(first) + region + norm.skip(last));
    lemma_prefix_ends_at_char_boundary(norm, first);
    lemma_prefix_ends_at_char_boundary(norm, last);
    assert(patched == head + middle + tail) by {
        lemma_encode_concat(norm.take(first) + region, norm.skip(last));
        lemma_encode_concat(norm.take(first), region);
    }
    assert(bytes == head + encode_utf8(norm.skip(first))) by {
        assert(norm.take(first) + norm.skip(first) =~= norm);
        lemma_encode_concat(norm.take(first), norm.skip(first));
    }
    assert(bytes == encode_utf8(norm.take(last)) + tail) by {
        assert(norm.take(last) + norm.skip(last) =~= norm);
        lemma_encode_concat(norm.take(last), norm.skip(last));
    }
    assert(head.len() <= encode_utf8(norm.take(last)).len()) by {
        assert(norm.take(last).take(first) =~= norm.take(first));
        lemma_utf8_len_take(norm.take(last), first);
    }
    assert(patched.take(head.len() as int) =~= head);
    assert(bytes.take(head.len() as int) =~= head);
    assert(patched.skip(patched.len() - tail.len()) =~= tail);
    assert(bytes.skip(bytes.len() - tail.len()) =~= tail);
}

} // verus!
