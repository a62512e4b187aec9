//! Writing hunks back as a unified diff, and the law that reading what was
//! written gives the same hunks.

use crate::diff::{
    close_hunk, hunk_texts, initial_state, is_added_line, is_context_line, is_header_line,
    is_hunk_header, is_removed_line, parsed_hunks, read_from, read_line, read_lines, HunkText,
    ParseState,
};
use crate::text::{
    from_chars, join, lemma_line_end_bounds, lemma_line_end_is, line_end, lines, push_all, slice,
    starts_with, texts, to_chars, without_cr,
};
use vstd::prelude::*;

verus! {

/// The lines of a block: what stands between its line feeds. A block without
/// a line feed, the empty one too, is one line.
pub open spec fn block_lines(block: Seq<char>) -> Seq<Seq<char>>
    decreases block.len(),
{
    let n = line_end(block);
    if 0 <= n < block.len() {
        seq![block.take(n)] + block_lines(block.skip(n + 1))
    } else {
        seq![block]
    }
}

/// Each of `parts` behind the marker `mark`.
pub open spec fn marked(parts: Seq<Seq<char>>, mark: char) -> Seq<Seq<char>> {
    Seq::new(parts.len(), |i: int| seq![mark] + parts[i])
}

/// The lines that give one hunk in a diff: a hunk header, the lines of the old
/// block as removed lines, and the lines of the new block as added lines.
pub open spec fn hunk_lines(hunk: HunkText) -> Seq<Seq<char>> {
    seq!["@@"@] + marked(block_lines(hunk.0), '-') + marked(block_lines(hunk.1), '+')
}

/// The lines that give `hunks` in a diff, hunk after hunk.
pub open spec fn diff_lines(hunks: Seq<HunkText>) -> Seq<Seq<char>>
    decreases hunks.len(),
{
    if hunks.len() == 0 {
        Seq::empty()
    } else {
        diff_lines(hunks.drop_last()) + hunk_lines(hunks.last())
    }
}

/// The text made of `text_lines`, each ended by a line feed.
pub open spec fn written(text_lines: Seq<Seq<char>>) -> Seq<char>
    decreases text_lines.len(),
{
    if text_lines.len() == 0 {
        Seq::empty()
    } else {
        text_lines[0] + seq!['\n'] + written(text_lines.drop_first())
    }
}

/// The unified diff that gives `hunks`.
pub open spec fn emitted(hunks: Seq<HunkText>) -> Seq<char> {
    written(diff_lines(hunks))
}

/// Whether a line can be written behind the marker `mark` and read back: it
/// does not begin with the marker twice, which with the marker before it would
/// read as a file header, and it does not end in a carriage return, which the
/// reader takes for part of the line ending.
pub open spec fn survives(line: Seq<char>, mark: char) -> bool {
    !seq![mark, mark].is_prefix_of(line) && !(line.len() > 0 && line.last() == '\r')
}

/// Whether every line of `block` can be written behind `mark` and read back.
pub open spec fn block_survives(block: Seq<char>, mark: char) -> bool {
    forall|i: int|
        0 <= i < block_lines(block).len() ==> survives(#[trigger] block_lines(block)[i], mark)
}

/// Hunks that can be written as a diff and read back: every line of every old
/// block survives as a removed line, and every line of every new block as an
/// added line.
pub open spec fn survive_writing(hunks: Seq<HunkText>) -> bool {
    forall|k: int|
        0 <= k < hunks.len() ==> block_survives((#[trigger] hunks[k]).0, '-') && block_survives(
            hunks[k].1,
            '+',
        )
}

/// The lines of a block.
fn split_block(block: &Vec<char>) -> (parts: Vec<Vec<char>>)
    ensures
        texts(parts@) == block_lines(block@),
{
    let mut parts: Vec<Vec<char>> = Vec::new();
    let mut start: usize = 0;
    let mut i: usize = 0;
    let n = block.len();
    proof {
        assert(block@.skip(0) =~= block@);
        assert(texts(parts@) + block_lines(block@) =~= block_lines(block@));
    }
    while i < n
        invariant
            n == block.len(),
            start <= i <= n,
            forall|k: int| start <= k < i ==> block@[k] != '\n',
            block_lines(block@) == texts(parts@) + block_lines(block@.skip(start as int)),
        decreases n - i,
    {
        if block[i] == '\n' {
            let ghost rest = block@.skip(start as int);
            proof {
                assert forall|k: int| 0 <= k < i - start implies rest[k] != '\n' by {
                    assert(rest[k] == block@[start + k]);
                }
                lemma_line_end_is(rest, i - start);
                assert(rest.take(i - start) =~= block@.subrange(start as int, i as int));
                assert(rest.skip(i - start + 1) =~= block@.skip(i + 1));
            }
            let part = slice(block, start, i);
            proof {
                assert(texts(parts@.push(part)) =~= texts(parts@) + seq![part@]);
            }
            parts.push(part);
            start = i + 1;
        }
        i += 1;
    }
    let ghost rest = block@.skip(start as int);
    proof {
        assert forall|k: int| 0 <= k < n - start implies rest[k] != '\n' by {
            assert(rest[k] == block@[start + k]);
        }
        lemma_line_end_is(rest, n - start);
        assert(rest =~= block@.subrange(start as int, n as int));
    }
    let part = slice(block, start, n);
    proof {
        assert(texts(parts@.push(part)) =~= texts(parts@) + seq![part@]);
    }
    parts.push(part);
    parts
}

/// Appends each of `parts`, behind the marker `mark`, to `out`.
fn push_marked(out: &mut Vec<Vec<char>>, parts: &Vec<Vec<char>>, mark: char)
    ensures
        texts(final(out)@) == texts(old(out)@) + marked(texts(parts@), mark),
{
    let mut i: usize = 0;
    proof {
        assert(texts(out@) + marked(texts(parts@), mark).take(0) =~= texts(out@));
    }
    while i < parts.len()
        invariant
            i <= parts.len(),
            texts(out@) == texts(old(out)@) + marked(texts(parts@), mark).take(i as int),
        decreases parts.len() - i,
    {
        let mut line: Vec<char> = vec![mark];
        push_all(&mut line, &parts[i]);
        let ghost before = out@;
        out.push(line);
        proof {
            let all = marked(texts(parts@), mark);
            assert(line@ =~= all[i as int]);
            assert(texts(out@) =~= texts(before).push(line@));
            assert(all.take(i + 1) =~= all.take(i as int).push(all[i as int]));
        }
        i += 1;
    }
    proof {
        let all = marked(texts(parts@), mark);
        assert(all.take(parts.len() as int) =~= all);
    }
}

/// The text made of `text_lines`, each ended by a line feed.
fn write_lines(text_lines: &Vec<Vec<char>>) -> (out: Vec<char>)
    ensures
        out@ == written(texts(text_lines@)),
{
    let mut out: Vec<char> = Vec::new();
    let mut i: usize = 0;
    proof {
        assert(texts(text_lines@).take(0) =~= Seq::<Seq<char>>::empty());
    }
    while i < text_lines.len()
        invariant
            i <= text_lines.len(),
            out@ == written(texts(text_lines@).take(i as int)),
        decreases text_lines.len() - i,
    {
        proof {
            let all = texts(text_lines@);
            lemma_written_push(all.take(i as int), all[i as int]);
            assert(all.take(i + 1) =~= all.take(i as int).push(all[i as int]));
        }
        push_all(&mut out, &text_lines[i]);
        out.push('\n');
        proof {
            let all = texts(text_lines@);
            assert(out@ =~= written(all.take(i as int)) + all[i as int] + seq!['\n']);
        }
        i += 1;
    }
    proof {
        assert(texts(text_lines@).take(text_lines.len() as int) =~= texts(text_lines@));
    }
    out
}

/// Writes hunks as a unified diff: for each hunk a hunk header, the lines of
/// its old block as removed lines and the lines of its new block as added
/// lines.
pub fn emit_unified_diff(hunks: &Vec<(String, String)>) -> (diff: String)
    ensures
        diff@ == emitted(hunk_texts(hunks@)),
{
    let mut all: Vec<Vec<char>> = Vec::new();
    let mut k: usize = 0;
    proof {
        assert(hunk_texts(hunks@).take(0) =~= Seq::<HunkText>::empty());
        assert(texts(all@) =~= Seq::<Seq<char>>::empty());
    }
    while k < hunks.len()
        invariant
            k <= hunks.len(),
            texts(all@) == diff_lines(hunk_texts(hunks@).take(k as int)),
        decreases hunks.len() - k,
    {
        let old_parts = split_block(&to_chars(hunks[k].0.as_str()));
        let new_parts = split_block(&to_chars(hunks[k].1.as_str()));
        let ghost before = all@;
        all.push(to_chars("@@"));
        proof {
            assert(texts(all@) =~= texts(before) + seq!["@@"@]);
        }
        push_marked(&mut all, &old_parts, '-');
        push_marked(&mut all, &new_parts, '+');
        proof {
            let upto = hunk_texts(hunks@).take(k + 1);
            assert(upto.drop_last() =~= hunk_texts(hunks@).take(k as int));
            assert(upto.last() == (hunks@[k as int].0@, hunks@[k as int].1@));
            assert(texts(all@) =~= texts(before) + hunk_lines(upto.last()));
        }
        k += 1;
    }
    proof {
        assert(hunk_texts(hunks@).take(hunks.len() as int) =~= hunk_texts(hunks@));
    }
    from_chars(&write_lines(&all))
}

/// Whether every line of `block` can be written behind `mark` and read back.
fn block_can_be_written(block: &str, mark: char) -> (r: bool)
    ensures
        r == block_survives(block@, mark),
{
    let parts = split_block(&to_chars(block));
    let twice: Vec<char> = vec![mark, mark];
    assert(twice@ =~= seq![mark, mark]);
    let mut i: usize = 0;
    while i < parts.len()
        invariant
            i <= parts.len(),
            texts(parts@) == block_lines(block@),
            twice@ == seq![mark, mark],
            forall|k: int| 0 <= k < i ==> survives(#[trigger] block_lines(block@)[k], mark),
        decreases parts.len() - i,
    {
        let part = &parts[i];
        assert(texts(parts@)[i as int] == part@);
        if starts_with(part, &twice) || (part.len() > 0 && part[part.len() - 1] == '\r') {
            assert(!survives(block_lines(block@)[i as int], mark));
            return false;
        }
        i += 1;
    }
    true
}

/// Whether `hunks` can be written as a diff and read back unchanged.
pub fn hunks_survive_writing(hunks: &Vec<(String, String)>) -> (r: bool)
    ensures
        r == survive_writing(hunk_texts(hunks@)),
{
    let mut k: usize = 0;
    while k < hunks.len()
        invariant
            k <= hunks.len(),
            forall|j: int|
                0 <= j < k ==> block_survives((#[trigger] hunk_texts(hunks@)[j]).0, '-')
                    && block_survives(hunk_texts(hunks@)[j].1, '+'),
        decreases hunks.len() - k,
    {
        assert(hunk_texts(hunks@)[k as int] == (hunks@[k as int].0@, hunks@[k as int].1@));
        if !block_can_be_written(hunks[k].0.as_str(), '-') || !block_can_be_written(
            hunks[k].1.as_str(),
            '+',
        ) {
            return false;
        }
        k += 1;
    }
    true
}

/// Writing one more line appends the line and a line feed.
pub proof fn lemma_written_push(text_lines: Seq<Seq<char>>, line: Seq<char>)
    ensures
        written(text_lines.push(line)) == written(text_lines) + line + seq!['\n'],
    decreases text_lines.len(),
{
    let more = text_lines.push(line);
    if text_lines.len() == 0 {
        assert(more.drop_first() =~= Seq::<Seq<char>>::empty());
        assert(written(more.drop_first()) =~= Seq::<char>::empty());
        assert(written(more) =~= line + seq!['\n']);
        assert(written(text_lines) + line + seq!['\n'] =~= line + seq!['\n']);
    } else {
        assert(more.drop_first() =~= text_lines.drop_first().push(line));
        lemma_written_push(text_lines.drop_first(), line);
        assert(written(more) =~= written(text_lines) + line + seq!['\n']);
    }
}

/// A line that ends where the reader of lines ends it: it holds no line feed
/// and does not end in a carriage return.
pub open spec fn is_plain_line(line: Seq<char>) -> bool {
    &&& forall|k: int| 0 <= k < line.len() ==> line[k] != '\n'
    &&& !(line.len() > 0 && line.last() == '\r')
}

/// The lines of a text written from plain lines are those lines.
pub proof fn lemma_lines_of_written(text_lines: Seq<Seq<char>>)
    requires
        forall|i: int| 0 <= i < text_lines.len() ==> is_plain_line(#[trigger] text_lines[i]),
    ensures
        lines(written(text_lines)) == text_lines,
    decreases text_lines.len(),
{
    if text_lines.len() == 0 {
    } else {
        let first = text_lines[0];
        let rest = text_lines.drop_first();
        let text = written(text_lines);
        assert(is_plain_line(first));
        assert forall|i: int| 0 <= i < rest.len() implies is_plain_line(#[trigger] rest[i]) by {
            assert(rest[i] == text_lines[i + 1]);
        }
        lemma_lines_of_written(rest);
        assert(text =~= first + seq!['\n'] + written(rest));
        assert forall|k: int| 0 <= k < first.len() implies text[k] != '\n' by {
            assert(text[k] == first[k]);
        }
        assert(text[first.len() as int] == '\n');
        lemma_line_end_is(text, first.len() as int);
        assert(text.take(first.len() as int) =~= first);
        assert(text.skip(first.len() as int + 1) =~= written(rest));
        assert(without_cr(first) == first);
        assert(lines(text) =~= seq![first] + rest);
        assert(seq![first] + rest =~= text_lines);
    }
}

/// No line feed stands before the end of the first line of a text.
pub proof fn lemma_no_line_feed_before_line_end(s: Seq<char>, k: int)
    requires
        0 <= k < line_end(s),
    ensures
        k < s.len(),
        s[k] != '\n',
    decreases s.len(),
{
    lemma_line_end_bounds(s);
    if s.len() == 0 || s[0] == '\n' {
    } else if k > 0 {
        lemma_no_line_feed_before_line_end(s.drop_first(), k - 1);
    }
}

/// Joining a first part and further parts puts the separator between them.
pub proof fn lemma_join_first(first: Seq<char>, rest: Seq<Seq<char>>, sep: Seq<char>)
    requires
        rest.len() > 0,
    ensures
        join(seq![first] + rest, sep) == first + sep + join(rest, sep),
    decreases rest.len(),
{
    let all = seq![first] + rest;
    assert(all.last() == rest.last());
    if rest.len() == 1 {
        assert(all.drop_last() =~= seq![first]);
        assert(join(seq![first], sep) == first);
        assert(join(all, sep) =~= first + sep + rest[0]);
    } else {
        assert(all.drop_last() =~= seq![first] + rest.drop_last());
        lemma_join_first(first, rest.drop_last(), sep);
        assert(join(all, sep) =~= first + sep + join(rest, sep));
    }
}

/// A block has at least one line, none of its lines holds a line feed, and
/// its lines joined by line feeds are the block.
pub proof fn lemma_block_lines(block: Seq<char>)
    ensures
        block_lines(block).len() > 0,
        forall|i: int, k: int|
            0 <= i < block_lines(block).len() && 0 <= k < block_lines(block)[i].len()
                ==> #[trigger] block_lines(block)[i][k] != '\n',
        join(block_lines(block), seq!['\n']) == block,
    decreases block.len(),
{
    let n = line_end(block);
    lemma_line_end_bounds(block);
    if 0 <= n < block.len() {
        let first = block.take(n);
        let rest = block.skip(n + 1);
        lemma_block_lines(rest);
        let parts = block_lines(block);
        assert(parts =~= seq![first] + block_lines(rest));
        assert forall|i: int, k: int|
            0 <= i < parts.len() && 0 <= k < parts[i].len() implies #[trigger] parts[i][k]
            != '\n' by {
            if i == 0 {
                lemma_no_line_feed_before_line_end(block, k);
            } else {
                assert(parts[i] == block_lines(rest)[i - 1]);
            }
        }
        lemma_join_first(first, block_lines(rest), seq!['\n']);
        assert(block[n] == '\n') by {
            lemma_line_end_stops_at_line_feed(block);
        }
        assert(first + seq!['\n'] + rest =~= block);
    } else {
        assert forall|k: int| 0 <= k < block.len() implies block[k] != '\n' by {
            lemma_no_line_feed_before_line_end(block, k);
        }
    }
}

/// Where the first line of a text ends before the text does, a line feed
/// stands there.
pub proof fn lemma_line_end_stops_at_line_feed(s: Seq<char>)
    requires
        line_end(s) < s.len(),
    ensures
        0 <= line_end(s),
        s[line_end(s)] == '\n',
    decreases s.len(),
{
    lemma_line_end_bounds(s);
    if s.len() == 0 || s[0] == '\n' {
    } else {
        lemma_line_end_stops_at_line_feed(s.drop_first());
    }
}

/// Reading two runs of lines one after the other is reading their
/// concatenation.
pub proof fn lemma_read_from_concat(st: ParseState, a: Seq<Seq<char>>, b: Seq<Seq<char>>)
    ensures
        read_from(st, a + b) == read_from(read_from(st, a), b),
    decreases b.len(),
{
    if b.len() == 0 {
        assert(a + b =~= a);
    } else {
        assert((a + b).drop_last() =~= a + b.drop_last());
        assert((a + b).last() == b.last());
        lemma_read_from_concat(st, a, b.drop_last());
    }
}

/// A hunk header closes the hunk being read and opens the next.
pub proof fn lemma_read_hunk_header(st: ParseState)
    ensures
        read_line(st, "@@"@) == (ParseState { in_hunk: true, ..close_hunk(st) }),
{
    reveal_strlit("@@");
    reveal_strlit("diff ");
    reveal_strlit("index ");
    reveal_strlit("new file mode");
    reveal_strlit("deleted file mode");
    reveal_strlit("--- ");
    reveal_strlit("+++ ");
    let line = "@@"@;
    assert(line.len() == 2);
    assert(line.subrange(0, 2) =~= line);
    assert(!is_header_line(line));
    assert(is_hunk_header(line));
}

/// The state with `parts` gathered as further lines of the side that `mark`
/// stands for: the old side for a minus sign, else the new side.
pub open spec fn with_gathered(st: ParseState, parts: Seq<Seq<char>>, mark: char) -> ParseState {
    if mark == '-' {
        ParseState { old_lines: st.old_lines + parts, ..st }
    } else {
        ParseState { new_lines: st.new_lines + parts, ..st }
    }
}

/// A text does not begin with a prefix whose first character is another than
/// its own.
proof fn lemma_other_first_char(prefix: Seq<char>, text: Seq<char>)
    requires
        prefix.len() > 0,
        text.len() > 0,
        prefix[0] != text[0],
    ensures
        !prefix.is_prefix_of(text),
{
    if prefix.is_prefix_of(text) {
        assert(text.subrange(0, prefix.len() as int)[0] == text[0]);
    }
}

/// A text that begins with a prefix of three equal marks or more has two of
/// them after the first.
proof fn lemma_three_marks(prefix: Seq<char>, mark: char, part: Seq<char>)
    requires
        prefix.len() >= 3,
        prefix[1] == mark,
        prefix[2] == mark,
        prefix.is_prefix_of(seq![mark] + part),
    ensures
        seq![mark, mark].is_prefix_of(part),
{
    let line = seq![mark] + part;
    assert(line.subrange(0, prefix.len() as int)[1] == line[1]);
    assert(line.subrange(0, prefix.len() as int)[2] == line[2]);
    assert(part[0] == mark && part[1] == mark);
    assert(part.subrange(0, 2) =~= seq![mark, mark]);
}

/// Inside a hunk, a line written behind a minus or a plus sign is read as a
/// line of the side that the sign stands for, unless it begins with that sign
/// twice.
pub proof fn lemma_read_marked_line(st: ParseState, part: Seq<char>, mark: char)
    requires
        st.in_hunk,
        mark == '-' || mark == '+',
        !seq![mark, mark].is_prefix_of(part),
    ensures
        read_line(st, seq![mark] + part) == with_gathered(st, seq![part], mark),
{
    reveal_strlit("@@");
    reveal_strlit("---");
    reveal_strlit("+++");
    reveal_strlit("diff ");
    reveal_strlit("index ");
    reveal_strlit("new file mode");
    reveal_strlit("deleted file mode");
    reveal_strlit("--- ");
    reveal_strlit("+++ ");
    let line = seq![mark] + part;
    assert(line[0] == mark);
    assert(line.drop_first() =~= part);
    lemma_other_first_char("diff "@, line);
    lemma_other_first_char("index "@, line);
    lemma_other_first_char("new file mode"@, line);
    lemma_other_first_char("deleted file mode"@, line);
    lemma_other_first_char("@@"@, line);
    if mark == '-' {
        lemma_other_first_char("+++ "@, line);
        if "--- "@.is_prefix_of(line) {
            lemma_three_marks("--- "@, mark, part);
        }
        if "---"@.is_prefix_of(line) {
            lemma_three_marks("---"@, mark, part);
        }
        assert(is_removed_line(line));
        assert(st.old_lines.push(part) =~= st.old_lines + seq![part]);
    } else {
        lemma_other_first_char("--- "@, line);
        if "+++ "@.is_prefix_of(line) {
            lemma_three_marks("+++ "@, mark, part);
        }
        if "+++"@.is_prefix_of(line) {
            lemma_three_marks("+++"@, mark, part);
        }
        assert(is_added_line(line));
        assert(!is_removed_line(line));
        assert(st.new_lines.push(part) =~= st.new_lines + seq![part]);
    }
    assert(!is_header_line(line));
    assert(!is_hunk_header(line));
    assert(!is_context_line(line));
}

/// Inside a hunk, lines that survive writing behind a marker are read as the
/// next lines of the side that the marker stands for.
pub proof fn lemma_read_marked_lines(st: ParseState, parts: Seq<Seq<char>>, mark: char)
    requires
        st.in_hunk,
        mark == '-' || mark == '+',
        forall|i: int| 0 <= i < parts.len() ==> survives(#[trigger] parts[i], mark),
    ensures
        read_from(st, marked(parts, mark)) == with_gathered(st, parts, mark),
    decreases parts.len(),
{
    let all = marked(parts, mark);
    if parts.len() == 0 {
        assert(st.old_lines + parts =~= st.old_lines);
        assert(st.new_lines + parts =~= st.new_lines);
    } else {
        let init = parts.drop_last();
        assert(all.drop_last() =~= marked(init, mark));
        assert(all.last() == seq![mark] + parts.last());
        assert forall|i: int| 0 <= i < init.len() implies survives(#[trigger] init[i], mark) by {
            assert(init[i] == parts[i]);
        }
        lemma_read_marked_lines(st, init, mark);
        assert(survives(parts[parts.len() - 1], mark));
        lemma_read_marked_line(with_gathered(st, init, mark), parts.last(), mark);
        assert(st.old_lines + init + seq![parts.last()] =~= st.old_lines + parts);
        assert(st.new_lines + init + seq![parts.last()] =~= st.new_lines + parts);
    }
}

/// What the reader holds after the lines that give `hunks`: nothing where
/// there is no hunk; else the hunks before the last as complete, and the last
/// as the one being read.
pub open spec fn state_after(hunks: Seq<HunkText>) -> ParseState {
    if hunks.len() == 0 {
        initial_state()
    } else {
        ParseState {
            hunks: hunks.drop_last(),
            old_lines: block_lines(hunks.last().0),
            new_lines: block_lines(hunks.last().1),
            in_hunk: true,
        }
    }
}

/// Reading the lines that give hunks which survive writing leaves the reader
/// holding those hunks.
pub proof fn lemma_read_diff_lines(hunks: Seq<HunkText>)
    requires
        survive_writing(hunks),
    ensures
        read_lines(diff_lines(hunks)) == state_after(hunks),
        close_hunk(state_after(hunks)).hunks == hunks,
    decreases hunks.len(),
{
    if hunks.len() == 0 {
    } else {
        let init = hunks.drop_last();
        let last = hunks.last();
        assert(survive_writing(init)) by {
            assert forall|k: int| 0 <= k < init.len() implies block_survives(
                (#[trigger] init[k]).0,
                '-',
            ) && block_survives(init[k].1, '+') by {
                assert(init[k] == hunks[k]);
            }
        }
        lemma_read_diff_lines(init);
        let opened = ParseState {
            hunks: init,
            old_lines: Seq::empty(),
            new_lines: Seq::empty(),
            in_hunk: true,
        };
        let at_header = read_lines(diff_lines(init));
        lemma_read_hunk_header(at_header);
        if init.len() > 0 {
            lemma_block_lines(init.last().0);
            lemma_block_lines(init.last().1);
            assert(init.drop_last().push(init.last()) =~= init);
        }
        assert(read_line(at_header, "@@"@) == opened);
        let old_parts = block_lines(last.0);
        let new_parts = block_lines(last.1);
        assert(hunks[hunks.len() - 1] == last);
        lemma_read_marked_lines(opened, old_parts, '-');
        let with_old = ParseState { old_lines: old_parts, ..opened };
        assert(opened.old_lines + old_parts =~= old_parts);
        lemma_read_marked_lines(with_old, new_parts, '+');
        assert(with_old.new_lines + new_parts =~= new_parts);
        let header = seq!["@@"@];
        assert(header.drop_last() =~= Seq::<Seq<char>>::empty());
        assert(read_from(at_header, header.drop_last()) == at_header);
        assert(header.last() == "@@"@);
        assert(read_from(at_header, header) == opened);
        lemma_read_from_concat(at_header, header, marked(old_parts, '-'));
        lemma_read_from_concat(at_header, header + marked(old_parts, '-'), marked(new_parts, '+'));
        lemma_read_from_concat(initial_state(), diff_lines(init), hunk_lines(last));
        assert(read_lines(diff_lines(hunks)) == state_after(hunks));
        lemma_block_lines(last.0);
        lemma_block_lines(last.1);
        assert(init.push(last) =~= hunks);
    }
}

/// Every line that gives a hunk which survives writing is a plain line.
pub proof fn lemma_diff_lines_are_plain(hunks: Seq<HunkText>)
    requires
        survive_writing(hunks),
    ensures
        forall|i: int|
            0 <= i < diff_lines(hunks).len() ==> is_plain_line(#[trigger] diff_lines(hunks)[i]),
    decreases hunks.len(),
{
    if hunks.len() > 0 {
        let init = hunks.drop_last();
        let last = hunks.last();
        assert(survive_writing(init)) by {
            assert forall|k: int| 0 <= k < init.len() implies block_survives(
                (#[trigger] init[k]).0,
                '-',
            ) && block_survives(init[k].1, '+') by {
                assert(init[k] == hunks[k]);
            }
        }
        lemma_diff_lines_are_plain(init);
        lemma_block_lines(last.0);
        lemma_block_lines(last.1);
        reveal_strlit("@@");
        let old_parts = block_lines(last.0);
        let new_parts = block_lines(last.1);
        let all = diff_lines(hunks);
        let head = diff_lines(init);
        assert(hunks[hunks.len() - 1] == last);
        assert forall|i: int| 0 <= i < all.len() implies is_plain_line(#[trigger] all[i]) by {
            if i < head.len() {
                assert(all[i] == head[i]);
            } else if i == head.len() {
                assert(all[i] == "@@"@);
            } else if i < head.len() + 1 + old_parts.len() {
                let j = i - head.len() - 1;
                let part = old_parts[j];
                assert(all[i] == seq!['-'] + part);
                assert(survives(part, '-'));
                assert forall|k: int| 0 <= k < all[i].len() implies all[i][k] != '\n' by {
                    if k > 0 {
                        assert(all[i][k] == part[k - 1]);
                    }
                }
                if part.len() > 0 {
                    assert(all[i].last() == part.last());
                }
            } else {
                let j = i - head.len() - 1 - old_parts.len();
                let part = new_parts[j];
                assert(all[i] == seq!['+'] + part);
                assert(survives(part, '+'));
                assert forall|k: int| 0 <= k < all[i].len() implies all[i][k] != '\n' by {
                    if k > 0 {
                        assert(all[i][k] == part[k - 1]);
                    }
                }
                if part.len() > 0 {
                    assert(all[i].last() == part.last());
                }
            }
        }
    }
}

/// Hunks written as a diff and read back are the same hunks, block for block.
///
/// This holds of all hunks that survive writing: those without a line of an
/// old block that begins with two minus signs, a line of a new block that
/// begins with two plus signs, or a line that ends in a carriage return.
pub proof fn lemma_emit_then_parse(hunks: Seq<HunkText>)
    requires
        survive_writing(hunks),
    ensures
        parsed_hunks(emitted(hunks)) == hunks,
{
    lemma_diff_lines_are_plain(hunks);
    lemma_lines_of_written(diff_lines(hunks));
    lemma_read_diff_lines(hunks);
}

} // verus!
