//! Text as sequences of characters.
//!
//! Every contract in this crate speaks of a string through its view, a
//! `Seq<char>`. This module holds the vocabulary those contracts share
//! (occurrence, first occurrence, lines, trimming, case folding, decimal
//! numerals, UTF-8 offsets) together with executable functions on `Vec<char>`
//! that are proved to compute them.

use vstd::prelude::*;
use vstd::utf8::{
    encode_scalar, encode_utf8, encode_utf8_first_scalar, encode_utf8_valid_utf8, is_char_boundary,
    pop_first_scalar,
};

verus! {

/// `String::push` appends one character to the end of the string.
pub assume_specification[ String::push ](s: &mut String, c: char)
    ensures
        final(s)@ == old(s)@.push(c),
;

/// `needle` stands in `hay` at index `pos`.
pub open spec fn occurs_at(hay: Seq<char>, pos: int, needle: Seq<char>) -> bool {
    &&& 0 <= pos
    &&& pos + needle.len() <= hay.len()
    &&& hay.subrange(pos, pos + needle.len()) =~= needle
}

/// `needle` stands somewhere in `hay`.
pub open spec fn contains(hay: Seq<char>, needle: Seq<char>) -> bool {
    exists|pos: int| occurs_at(hay, pos, needle)
}

/// The least index not below `from` at which `needle` stands in `hay`.
pub open spec fn find_from(hay: Seq<char>, needle: Seq<char>, from: int) -> Option<int>
    decreases hay.len() - from,
{
    if from < 0 || from + needle.len() > hay.len() {
        None
    } else if occurs_at(hay, from, needle) {
        Some(from)
    } else {
        find_from(hay, needle, from + 1)
    }
}

/// The index of the first occurrence of `needle` in `hay`.
pub open spec fn find(hay: Seq<char>, needle: Seq<char>) -> Option<int> {
    find_from(hay, needle, 0)
}

/// `find_from` returns an occurrence, skips none, and fails only where there is none.
pub proof fn lemma_find_from(hay: Seq<char>, needle: Seq<char>, from: int)
    requires
        0 <= from,
    ensures
        match find_from(hay, needle, from) {
            Some(i) => {
                &&& from <= i
                &&& occurs_at(hay, i, needle)
                &&& forall|j: int| from <= j < i ==> !occurs_at(hay, j, needle)
            },
            None => forall|j: int| from <= j ==> !occurs_at(hay, j, needle),
        },
    decreases hay.len() - from,
{
    if from + needle.len() > hay.len() {
    } else if occurs_at(hay, from, needle) {
    } else {
        lemma_find_from(hay, needle, from + 1);
    }
}

/// `find` succeeds exactly on the texts that contain the needle.
pub proof fn lemma_find_contains(hay: Seq<char>, needle: Seq<char>)
    ensures
        find(hay, needle) is Some <==> contains(hay, needle),
{
    lemma_find_from(hay, needle, 0);
    if find(hay, needle) is Some {
        assert(occurs_at(hay, find(hay, needle).unwrap(), needle));
    }
}

/// The characters of a string slice, in order.
pub fn to_chars(s: &str) -> (v: Vec<char>)
    ensures
        v@ == s@,
{
    let mut v: Vec<char> = Vec::new();
    for c in it: s.chars()
        invariant
            v@ == s@.subrange(0, it.index() as int),
            it.seq() == s@,
    {
        v.push(c);
    }
    assert(v@ =~= s@);
    v
}

/// The string made of the characters `v[from..to]`.
pub fn string_of_range(v: &Vec<char>, from: usize, to: usize) -> (s: String)
    requires
        from <= to <= v.len(),
    ensures
        s@ == v@.subrange(from as int, to as int),
{
    let mut s = String::new();
    let mut i: usize = from;
    while i < to
        invariant
            from <= i <= to <= v.len(),
            s@ == v@.subrange(from as int, i as int),
        decreases to - i,
    {
        s.push(v[i]);
        assert(v@.subrange(from as int, i as int).push(v@[i as int]) =~= v@.subrange(
            from as int,
            i + 1,
        ));
        i += 1;
    }
    s
}

/// The string made of the characters of `v`.
pub fn from_chars(v: &Vec<char>) -> (s: String)
    ensures
        s@ == v@,
{
    let s = string_of_range(v, 0, v.len());
    assert(v@.subrange(0, v.len() as int) =~= v@);
    s
}

/// Appends the characters `src[from..to]` to `dst`.
pub fn push_range(dst: &mut Vec<char>, src: &Vec<char>, from: usize, to: usize)
    requires
        from <= to <= src.len(),
    ensures
        final(dst)@ == old(dst)@ + src@.subrange(from as int, to as int),
{
    let mut i: usize = from;
    while i < to
        invariant
            from <= i <= to <= src.len(),
            dst@ == old(dst)@ + src@.subrange(from as int, i as int),
        decreases to - i,
    {
        dst.push(src[i]);
        assert(src@.subrange(from as int, i as int).push(src@[i as int]) =~= src@.subrange(
            from as int,
            i + 1,
        ));
        assert(dst@ =~= old(dst)@ + src@.subrange(from as int, i + 1));
        i += 1;
    }
}

/// Appends the characters of `src` to `dst`.
pub fn push_all(dst: &mut Vec<char>, src: &Vec<char>)
    ensures
        final(dst)@ == old(dst)@ + src@,
{
    push_range(dst, src, 0, src.len());
    assert(src@.subrange(0, src.len() as int) =~= src@);
}

/// Appends the characters of a string slice to `dst`.
pub fn push_str(dst: &mut Vec<char>, src: &str)
    ensures
        final(dst)@ == old(dst)@ + src@,
{
    let chars = to_chars(src);
    push_all(dst, &chars);
}

/// A copy of the characters `v[from..to]`.
pub fn slice(v: &Vec<char>, from: usize, to: usize) -> (r: Vec<char>)
    requires
        from <= to <= v.len(),
    ensures
        r@ == v@.subrange(from as int, to as int),
{
    let mut r: Vec<char> = Vec::new();
    push_range(&mut r, v, from, to);
    assert(r@ =~= v@.subrange(from as int, to as int));
    r
}

/// Whether two texts hold the same characters.
pub fn same_text(a: &Vec<char>, b: &Vec<char>) -> (r: bool)
    ensures
        r == (a@ == b@),
{
    if a.len() != b.len() {
        return false;
    }
    let mut i: usize = 0;
    while i < a.len()
        invariant
            i <= a.len(),
            a.len() == b.len(),
            forall|k: int| 0 <= k < i ==> a@[k] == b@[k],
        decreases a.len() - i,
    {
        if a[i] != b[i] {
            return false;
        }
        i += 1;
    }
    assert(a@ =~= b@);
    true
}

/// Whether `text` holds exactly the characters of `other`.
pub fn equals_str(text: &Vec<char>, other: &str) -> (r: bool)
    ensures
        r == (text@ == other@),
{
    let chars = to_chars(other);
    same_text(text, &chars)
}

/// Whether `needle` stands in `hay` at index `pos`.
pub fn matches_at(hay: &Vec<char>, pos: usize, needle: &Vec<char>) -> (r: bool)
    ensures
        r == occurs_at(hay@, pos as int, needle@),
{
    if pos > hay.len() || needle.len() > hay.len() - pos {
        return false;
    }
    let mut i: usize = 0;
    while i < needle.len()
        invariant
            i <= needle.len(),
            pos + needle.len() <= hay.len(),
            forall|k: int| 0 <= k < i ==> hay@[pos + k] == needle@[k],
        decreases needle.len() - i,
    {
        if hay[pos + i] != needle[i] {
            assert(hay@.subrange(pos as int, pos + needle.len())[i as int] != needle@[i as int]);
            return false;
        }
        i += 1;
    }
    assert(hay@.subrange(pos as int, pos + needle.len()) =~= needle@);
    true
}

/// Whether `hay` begins with `prefix`.
pub fn starts_with(hay: &Vec<char>, prefix: &Vec<char>) -> (r: bool)
    ensures
        r == prefix@.is_prefix_of(hay@),
{
    matches_at(hay, 0, prefix)
}

/// Whether `hay` ends with `suffix`.
pub fn ends_with(hay: &Vec<char>, suffix: &Vec<char>) -> (r: bool)
    ensures
        r == suffix@.is_suffix_of(hay@),
{
    if suffix.len() > hay.len() {
        return false;
    }
    matches_at(hay, hay.len() - suffix.len(), suffix)
}

/// The index of the first occurrence of `needle` in `hay`, searching from `from`.
pub fn find_in_from(hay: &Vec<char>, needle: &Vec<char>, from: usize) -> (r: Option<usize>)
    ensures
        match r {
            Some(i) => find_from(hay@, needle@, from as int) == Some(i as int),
            None => find_from(hay@, needle@, from as int) is None,
        },
{
    if from > hay.len() || needle.len() > hay.len() - from {
        return None;
    }
    let last: usize = hay.len() - needle.len();
    let mut i: usize = from;
    while i <= last
        invariant
            from <= i <= last + 1,
            last == hay.len() - needle.len(),
            find_from(hay@, needle@, from as int) == find_from(hay@, needle@, i as int),
        decreases last + 1 - i,
    {
        if matches_at(hay, i, needle) {
            return Some(i);
        }
        i += 1;
    }
    None
}

/// The index of the first occurrence of `needle` in `hay`.
pub fn find_in(hay: &Vec<char>, needle: &Vec<char>) -> (r: Option<usize>)
    ensures
        match r {
            Some(i) => find(hay@, needle@) == Some(i as int),
            None => find(hay@, needle@) is None,
        },
{
    find_in_from(hay, needle, 0)
}

/// Whether `needle` stands somewhere in `hay`.
pub fn contains_text(hay: &Vec<char>, needle: &Vec<char>) -> (r: bool)
    ensures
        r == contains(hay@, needle@),
{
    proof {
        lemma_find_contains(hay@, needle@);
    }
    find_in(hay, needle).is_some()
}

/// The views of a sequence of character vectors.
pub open spec fn texts(v: Seq<Vec<char>>) -> Seq<Seq<char>> {
    Seq::new(v.len(), |i: int| v[i]@)
}

/// The views of a sequence of strings.
pub open spec fn views_of(v: Seq<String>) -> Seq<Seq<char>> {
    Seq::new(v.len(), |i: int| v[i]@)
}

/// Appends the string made of the characters of `text` to `list`.
pub fn push_text(list: &mut Vec<String>, text: &Vec<char>)
    ensures
        views_of(final(list)@) == views_of(old(list)@).push(text@),
{
    let s = from_chars(text);
    list.push(s);
    assert(views_of(list@) =~= views_of(old(list)@).push(text@));
}

/// The number of characters before the first line feed of `s`, or the length
/// of `s` where it holds none.
pub open spec fn line_end(s: Seq<char>) -> int
    decreases s.len(),
{
    if s.len() == 0 || s[0] == '\n' {
        0
    } else {
        1 + line_end(s.drop_first())
    }
}

/// `s` without one carriage return at its end, if it has one there.
pub open spec fn without_cr(s: Seq<char>) -> Seq<char> {
    if s.len() > 0 && s.last() == '\r' {
        s.drop_last()
    } else {
        s
    }
}

/// The lines of `s`. A line ends at a line feed, which is not part of it, nor
/// is a carriage return directly before that line feed. What follows the last
/// line feed is a line of its own unless it is empty, and is kept as it is.
pub open spec fn lines(s: Seq<char>) -> Seq<Seq<char>>
    decreases s.len(),
{
    if s.len() == 0 {
        Seq::empty()
    } else {
        let n = line_end(s);
        if 0 <= n < s.len() {
            seq![without_cr(s.take(n))] + lines(s.skip(n + 1))
        } else {
            seq![s]
        }
    }
}

/// `parts` written one after the other with `sep` between neighbours.
pub open spec fn join(parts: Seq<Seq<char>>, sep: Seq<char>) -> Seq<char>
    decreases parts.len(),
{
    if parts.len() == 0 {
        Seq::empty()
    } else if parts.len() == 1 {
        parts[0]
    } else {
        join(parts.drop_last(), sep) + sep + parts.last()
    }
}

/// `line_end` lies within the text.
pub proof fn lemma_line_end_bounds(s: Seq<char>)
    ensures
        0 <= line_end(s) <= s.len(),
    decreases s.len(),
{
    if s.len() == 0 || s[0] == '\n' {
    } else {
        lemma_line_end_bounds(s.drop_first());
    }
}

/// A text whose first `m` characters are no line feeds, and which ends there or
/// has a line feed there, has `m` as its `line_end`.
pub proof fn lemma_line_end_is(s: Seq<char>, m: int)
    requires
        0 <= m <= s.len(),
        forall|k: int| 0 <= k < m ==> s[k] != '\n',
        m == s.len() || s[m] == '\n',
    ensures
        line_end(s) == m,
    decreases s.len(),
{
    if m == 0 {
    } else {
        let t = s.drop_first();
        assert forall|k: int| 0 <= k < m - 1 implies t[k] != '\n' by {
            assert(t[k] == s[k + 1]);
        }
        lemma_line_end_is(t, m - 1);
    }
}

/// The lines of a text, each as a vector of characters.
pub fn split_lines(s: &Vec<char>) -> (out: Vec<Vec<char>>)
    ensures
        texts(out@) == lines(s@),
{
    let mut out: Vec<Vec<char>> = Vec::new();
    let mut start: usize = 0;
    let mut i: usize = 0;
    let n = s.len();
    proof {
        assert(s@.skip(0) =~= s@);
        assert(texts(out@) + lines(s@) =~= lines(s@));
    }
    while i < n
        invariant
            n == s.len(),
            start <= i <= n,
            forall|k: int| start <= k < i ==> s@[k] != '\n',
            lines(s@) == texts(out@) + lines(s@.skip(start as int)),
        decreases n - i,
    {
        if s[i] == '\n' {
            let ghost rest = s@.skip(start as int);
            proof {
                assert forall|k: int| 0 <= k < i - start implies rest[k] != '\n' by {
                    assert(rest[k] == s@[start + k]);
                }
                lemma_line_end_is(rest, i - start);
                assert(rest.take(i - start) =~= s@.subrange(start as int, i as int));
                assert(rest.skip(i - start + 1) =~= s@.skip(i + 1));
            }
            let end: usize = if i > start && s[i - 1] == '\r' {
                i - 1
            } else {
                i
            };
            let line = slice(s, start, end);
            proof {
                let raw = s@.subrange(start as int, i as int);
                assert(line@ =~= without_cr(raw));
                assert(texts(out@.push(line)) =~= texts(out@) + seq![line@]);
            }
            out.push(line);
            start = i + 1;
        }
        i += 1;
    }
    if start < n {
        let ghost rest = s@.skip(start as int);
        proof {
            assert forall|k: int| 0 <= k < n - start implies rest[k] != '\n' by {
                assert(rest[k] == s@[start + k]);
            }
            lemma_line_end_is(rest, n - start);
            assert(rest =~= s@.subrange(start as int, n as int));
        }
        let line = slice(s, start, n);
        proof {
            assert(texts(out@.push(line)) =~= texts(out@) + seq![line@]);
        }
        out.push(line);
    } else {
        assert(s@.skip(start as int).len() == 0);
        assert(texts(out@) + Seq::<Seq<char>>::empty() =~= texts(out@));
    }
    out
}

/// The parts joined with `sep` between neighbours.
pub fn join_texts(parts: &Vec<Vec<char>>, sep: &Vec<char>) -> (out: Vec<char>)
    ensures
        out@ == join(texts(parts@), sep@),
{
    let mut out: Vec<char> = Vec::new();
    let mut i: usize = 0;
    while i < parts.len()
        invariant
            i <= parts.len(),
            out@ == join(texts(parts@).take(i as int), sep@),
        decreases parts.len() - i,
    {
        let ghost before = texts(parts@).take(i as int);
        let ghost after = texts(parts@).take(i + 1);
        proof {
            assert(after.drop_last() =~= before);
            assert(after.last() == parts@[i as int]@);
        }
        if i > 0 {
            push_all(&mut out, sep);
        }
        push_all(&mut out, &parts[i]);
        proof {
            if i == 0 {
                assert(out@ =~= parts@[0]@);
            }
        }
        i += 1;
    }
    assert(texts(parts@).take(parts.len() as int) =~= texts(parts@));
    out
}

/// The text with each carriage return that a line feed follows, together with
/// that line feed, and each other carriage return, replaced by one line feed.
pub open spec fn normalize_newlines(s: Seq<char>) -> Seq<char>
    decreases s.len(),
{
    if s.len() == 0 {
        s
    } else if s[0] == '\r' && s.len() > 1 && s[1] == '\n' {
        seq!['\n'] + normalize_newlines(s.skip(2))
    } else if s[0] == '\r' {
        seq!['\n'] + normalize_newlines(s.skip(1))
    } else {
        seq![s[0]] + normalize_newlines(s.skip(1))
    }
}

/// The text with its line endings normalized to line feeds.
pub fn normalized(s: &Vec<char>) -> (out: Vec<char>)
    ensures
        out@ == normalize_newlines(s@),
{
    let mut out: Vec<char> = Vec::new();
    let n = s.len();
    let mut i: usize = 0;
    proof {
        assert(s@.skip(0) =~= s@);
        assert(out@ + normalize_newlines(s@) =~= normalize_newlines(s@));
    }
    while i < n
        invariant
            n == s.len(),
            i <= n,
            normalize_newlines(s@) == out@ + normalize_newlines(s@.skip(i as int)),
        decreases n - i,
    {
        let ghost rest = s@.skip(i as int);
        let ghost before = out@;
        if s[i] == '\r' {
            out.push('\n');
            if i + 1 < n && s[i + 1] == '\n' {
                proof {
                    assert(rest[1] == s@[i + 1]);
                    assert(rest.skip(2) =~= s@.skip(i + 2));
                    assert(out@ + normalize_newlines(s@.skip(i + 2)) =~= before + (seq!['\n']
                        + normalize_newlines(rest.skip(2))));
                }
                i += 2;
            } else {
                proof {
                    if rest.len() > 1 {
                        assert(rest[1] == s@[i + 1]);
                    }
                    assert(rest.skip(1) =~= s@.skip(i + 1));
                    assert(out@ + normalize_newlines(s@.skip(i + 1)) =~= before + (seq!['\n']
                        + normalize_newlines(rest.skip(1))));
                }
                i += 1;
            }
        } else {
            out.push(s[i]);
            proof {
                assert(rest.skip(1) =~= s@.skip(i + 1));
                assert(out@ + normalize_newlines(s@.skip(i + 1)) =~= before + (seq![rest[0]]
                    + normalize_newlines(rest.skip(1))));
            }
            i += 1;
        }
    }
    proof {
        assert(s@.skip(n as int).len() == 0);
        assert(out@ + normalize_newlines(s@.skip(n as int)) =~= out@);
    }
    out
}

/// The number of bytes that the UTF-8 encoding of `c` takes.
pub open spec fn char_width(c: char) -> nat {
    encode_scalar(c as u32).len()
}

/// The number of bytes that the UTF-8 encoding of `s` takes.
pub open spec fn utf8_len(s: Seq<char>) -> nat {
    encode_utf8(s).len()
}

/// The number of characters of `s` that begin before byte `offset` of its
/// UTF-8 encoding. It is the index of the first character that begins at or
/// after that byte, and the length of `s` where there is none.
pub open spec fn chars_before(s: Seq<char>, offset: int) -> int
    decreases s.len(),
{
    if s.len() == 0 || offset <= 0 {
        0
    } else {
        1 + chars_before(s.drop_first(), offset - char_width(s[0]))
    }
}

/// A character takes one to four bytes, by the range its code point lies in.
pub proof fn lemma_char_width(c: char)
    ensures
        char_width(c) == (if c as u32 <= 0x7F {
            1nat
        } else if c as u32 <= 0x7FF {
            2nat
        } else if c as u32 <= 0xFFFF {
            3nat
        } else {
            4nat
        }),
{
}

/// A text of one character is encoded as that character is.
pub proof fn lemma_encode_single(c: char)
    ensures
        encode_utf8(seq![c]) == encode_scalar(c as u32),
        utf8_len(seq![c]) == char_width(c),
{
    let s = seq![c];
    assert(s.drop_first() =~= Seq::<char>::empty());
    assert(encode_utf8(s.drop_first()) =~= Seq::<u8>::empty());
    assert(encode_utf8(s) =~= encode_scalar(c as u32) + encode_utf8(s.drop_first()));
    assert(encode_utf8(s) =~= encode_scalar(c as u32));
}

/// The encoding of a concatenation is the concatenation of the encodings.
pub proof fn lemma_encode_concat(a: Seq<char>, b: Seq<char>)
    ensures
        encode_utf8(a + b) == encode_utf8(a) + encode_utf8(b),
    decreases a.len(),
{
    if a.len() == 0 {
        assert(a + b =~= b);
        assert(encode_utf8(a) + encode_utf8(b) =~= encode_utf8(b));
    } else {
        assert((a + b).drop_first() =~= a.drop_first() + b);
        lemma_encode_concat(a.drop_first(), b);
        assert(encode_utf8(a + b) =~= encode_utf8(a) + encode_utf8(b));
    }
}

/// Byte lengths add up over concatenation.
pub proof fn lemma_utf8_len_concat(a: Seq<char>, b: Seq<char>)
    ensures
        utf8_len(a + b) == utf8_len(a) + utf8_len(b),
{
    lemma_encode_concat(a, b);
}

/// A prefix takes no more bytes than the whole, and one character more takes
/// that character's width more.
pub proof fn lemma_utf8_len_take(s: Seq<char>, i: int)
    requires
        0 <= i <= s.len(),
    ensures
        utf8_len(s.take(i)) <= utf8_len(s),
        i < s.len() ==> utf8_len(s.take(i + 1)) == utf8_len(s.take(i)) + char_width(s[i]),
{
    assert(s.take(i) + s.skip(i) =~= s);
    lemma_utf8_len_concat(s.take(i), s.skip(i));
    if i < s.len() {
        assert(s.take(i) + seq![s[i]] =~= s.take(i + 1));
        lemma_utf8_len_concat(s.take(i), seq![s[i]]);
        lemma_encode_single(s[i]);
    }
}

/// The bytes of the first `i` characters of a text end at a character
/// boundary of its encoding.
pub proof fn lemma_prefix_ends_at_char_boundary(s: Seq<char>, i: int)
    requires
        0 <= i <= s.len(),
    ensures
        is_char_boundary(encode_utf8(s), utf8_len(s.take(i)) as int),
    decreases s.len(),
{
    broadcast use encode_utf8_valid_utf8;

    let bytes = encode_utf8(s);
    if i == 0 {
        assert(s.take(0) =~= Seq::<char>::empty());
    } else {
        let t = s.drop_first();
        encode_utf8_first_scalar(s);
        assert(pop_first_scalar(bytes) =~= encode_utf8(t));
        lemma_prefix_ends_at_char_boundary(t, i - 1);
        assert(s.take(i) =~= seq![s[0]] + t.take(i - 1));
        lemma_utf8_len_concat(seq![s[0]], t.take(i - 1));
        lemma_encode_single(s[0]);
        lemma_utf8_len_take(s, i);
        lemma_char_width(s[0]);
    }
}

/// Normalizing line endings never makes a text longer in bytes.
pub proof fn lemma_normalize_utf8_len(s: Seq<char>)
    ensures
        utf8_len(normalize_newlines(s)) <= utf8_len(s),
    decreases s.len(),
{
    if s.len() == 0 {
    } else {
        lemma_char_width(s[0]);
        lemma_char_width('\n');
        assert(seq![s[0]] + s.skip(1) =~= s);
        lemma_utf8_len_concat(seq![s[0]], s.skip(1));
        lemma_encode_single(s[0]);
        lemma_encode_single('\n');
        if s[0] == '\r' && s.len() > 1 && s[1] == '\n' {
            lemma_normalize_utf8_len(s.skip(2));
            lemma_utf8_len_concat(seq!['\n'], normalize_newlines(s.skip(2)));
            assert(seq![s[1]] + s.skip(2) =~= s.skip(1));
            lemma_utf8_len_concat(seq![s[1]], s.skip(2));
        } else if s[0] == '\r' {
            lemma_normalize_utf8_len(s.skip(1));
            lemma_utf8_len_concat(seq!['\n'], normalize_newlines(s.skip(1)));
        } else {
            lemma_normalize_utf8_len(s.skip(1));
            lemma_utf8_len_concat(seq![s[0]], normalize_newlines(s.skip(1)));
        }
    }
}

/// `chars_before` names a character boundary: it lies within the text, every
/// earlier boundary is before `offset`, and where `offset` is within the
/// encoding the boundary it names is at or after `offset`.
pub proof fn lemma_chars_before(s: Seq<char>, offset: int)
    ensures
        0 <= chars_before(s, offset) <= s.len(),
        forall|k: int| 0 <= k < chars_before(s, offset) ==> utf8_len(s.take(k)) < offset,
        offset <= utf8_len(s) ==> utf8_len(s.take(chars_before(s, offset))) >= offset,
    decreases s.len(),
{
    if s.len() == 0 || offset <= 0 {
        assert(s.take(0) =~= Seq::<char>::empty());
    } else {
        let t = s.drop_first();
        let w = char_width(s[0]);
        lemma_char_width(s[0]);
        lemma_chars_before(t, offset - w);
        let i = chars_before(t, offset - w);
        assert forall|k: int| 0 <= k < 1 + i implies utf8_len(s.take(k)) < offset by {
            if k == 0 {
                assert(s.take(0) =~= Seq::<char>::empty());
            } else {
                assert(s.take(k) =~= seq![s[0]] + t.take(k - 1));
                lemma_utf8_len_concat(seq![s[0]], t.take(k - 1));
                lemma_encode_single(s[0]);
            }
        }
        assert(s.take(1 + i) =~= seq![s[0]] + t.take(i));
        lemma_utf8_len_concat(seq![s[0]], t.take(i));
        assert(seq![s[0]] + t =~= s);
        lemma_utf8_len_concat(seq![s[0]], t);
        lemma_encode_single(s[0]);
    }
}

/// A later offset has no fewer characters before it.
pub proof fn lemma_chars_before_monotone(s: Seq<char>, a: int, b: int)
    requires
        a <= b,
    ensures
        chars_before(s, a) <= chars_before(s, b),
    decreases s.len(),
{
    if s.len() == 0 || a <= 0 {
        lemma_chars_before(s, b);
    } else {
        lemma_chars_before_monotone(s.drop_first(), a - char_width(s[0]), b - char_width(s[0]));
    }
}

/// The number of bytes that the UTF-8 encoding of `c` takes.
pub fn width_of(c: char) -> (w: usize)
    ensures
        w == char_width(c),
        1 <= w <= 4,
{
    proof {
        lemma_char_width(c);
    }
    let code: u32 = c as u32;
    if code <= 0x7F {
        1
    } else if code <= 0x7FF {
        2
    } else if code <= 0xFFFF {
        3
    } else {
        4
    }
}

/// The number of bytes that the UTF-8 encoding of the first `upto` characters
/// of `s` takes.
pub fn utf8_len_of_prefix(s: &Vec<char>, upto: usize) -> (len: usize)
    requires
        upto <= s.len(),
        utf8_len(s@) <= usize::MAX,
    ensures
        len == utf8_len(s@.take(upto as int)),
{
    let mut len: usize = 0;
    let mut i: usize = 0;
    proof {
        assert(s@.take(0) =~= Seq::<char>::empty());
    }
    while i < upto
        invariant
            i <= upto <= s.len(),
            utf8_len(s@) <= usize::MAX,
            len == utf8_len(s@.take(i as int)),
        decreases upto - i,
    {
        proof {
            lemma_utf8_len_take(s@, i as int);
            lemma_utf8_len_take(s@, i + 1);
        }
        len += width_of(s[i]);
        i += 1;
    }
    len
}

/// The index of the first character of `s` that begins at or after byte
/// `offset` of its UTF-8 encoding, or the length of `s`.
pub fn char_index_at(s: &Vec<char>, offset: usize) -> (index: usize)
    ensures
        index == chars_before(s@, offset as int),
        index <= s.len(),
{
    let n = s.len();
    let mut i: usize = 0;
    let mut remaining: usize = offset;
    proof {
        assert(s@.skip(0) =~= s@);
        lemma_chars_before(s@, offset as int);
    }
    while i < n && remaining > 0
        invariant
            n == s.len(),
            i <= n,
            chars_before(s@, offset as int) == i + chars_before(s@.skip(i as int), remaining as int),
        decreases n - i,
    {
        let w = width_of(s[i]);
        proof {
            assert(s@.skip(i as int).drop_first() =~= s@.skip(i + 1));
            assert(s@.skip(i as int)[0] == s@[i as int]);
        }
        if w >= remaining {
            proof {
                assert(chars_before(s@.skip(i + 1), remaining - w) == 0);
                assert(chars_before(s@.skip(i + 1), 0) == 0);
            }
            remaining = 0;
        } else {
            remaining -= w;
        }
        i += 1;
    }
    i
}

/// Whether `c` is white space: a character with Unicode's `White_Space`
/// property.
pub open spec fn is_whitespace(c: char) -> bool {
    let code = c as u32;
    ||| 0x09 <= code <= 0x0D
    ||| code == 0x20
    ||| code == 0x85
    ||| code == 0xA0
    ||| code == 0x1680
    ||| 0x2000 <= code <= 0x200A
    ||| code == 0x2028
    ||| code == 0x2029
    ||| code == 0x202F
    ||| code == 0x205F
    ||| code == 0x3000
}

/// `s` without the white space at its beginning.
pub open spec fn trim_start(s: Seq<char>) -> Seq<char>
    decreases s.len(),
{
    if s.len() > 0 && is_whitespace(s[0]) {
        trim_start(s.drop_first())
    } else {
        s
    }
}

/// `s` without the white space at its end.
pub open spec fn trim_end(s: Seq<char>) -> Seq<char>
    decreases s.len(),
{
    if s.len() > 0 && is_whitespace(s.last()) {
        trim_end(s.drop_last())
    } else {
        s
    }
}

/// `s` without the white space at its beginning and at its end.
pub open spec fn trim(s: Seq<char>) -> Seq<char> {
    trim_end(trim_start(s))
}

/// The lower-case form of an ASCII capital letter, and any other character
/// itself.
pub open spec fn ascii_lower(c: char) -> char {
    if 'A' <= c <= 'Z' {
        ((c as u8) + 32) as char
    } else {
        c
    }
}

/// `s` with its ASCII capital letters in lower case.
pub open spec fn fold_case(s: Seq<char>) -> Seq<char> {
    Seq::new(s.len(), |i: int| ascii_lower(s[i]))
}

/// Whether `c` is white space.
pub fn is_space(c: char) -> (r: bool)
    ensures
        r == is_whitespace(c),
{
    let code: u32 = c as u32;
    (0x09 <= code && code <= 0x0D) || code == 0x20 || code == 0x85 || code == 0xA0 || code
        == 0x1680 || (0x2000 <= code && code <= 0x200A) || code == 0x2028 || code == 0x2029
        || code == 0x202F || code == 0x205F || code == 0x3000
}

/// The number of white-space characters at the beginning of `s[from..]`.
pub fn leading_space(s: &Vec<char>, from: usize) -> (n: usize)
    requires
        from <= s.len(),
    ensures
        from + n <= s.len(),
        trim_start(s@.skip(from as int)) == s@.skip(from + n),
{
    let mut i: usize = from;
    while i < s.len() && is_space(s[i])
        invariant
            from <= i <= s.len(),
            trim_start(s@.skip(from as int)) == trim_start(s@.skip(i as int)),
        decreases s.len() - i,
    {
        proof {
            assert(s@.skip(i as int).drop_first() =~= s@.skip(i + 1));
        }
        i += 1;
    }
    i - from
}

/// The characters of `s` without the white space at its beginning and end.
pub fn trimmed(s: &Vec<char>) -> (out: Vec<char>)
    ensures
        out@ == trim(s@),
{
    let from = leading_space(s, 0);
    let mut to: usize = s.len();
    proof {
        assert(s@.skip(0) =~= s@);
        assert(s@.skip(from as int) =~= s@.subrange(from as int, to as int));
    }
    while to > from && is_space(s[to - 1])
        invariant
            from <= to <= s.len(),
            trim(s@) == trim_end(s@.subrange(from as int, to as int)),
        decreases to - from,
    {
        proof {
            assert(s@.subrange(from as int, to as int).drop_last() =~= s@.subrange(
                from as int,
                to - 1,
            ));
        }
        to -= 1;
    }
    slice(s, from, to)
}

/// The lower-case form of `c` where it is an ASCII capital letter, else `c`.
pub fn lower(c: char) -> (r: char)
    ensures
        r == ascii_lower(c),
{
    if 'A' <= c && c <= 'Z' {
        ((c as u8) + 32) as char
    } else {
        c
    }
}

/// The characters of `s` with the ASCII capital letters in lower case.
pub fn case_folded(s: &Vec<char>) -> (out: Vec<char>)
    ensures
        out@ == fold_case(s@),
{
    let mut out: Vec<char> = Vec::new();
    let mut i: usize = 0;
    while i < s.len()
        invariant
            i <= s.len(),
            out@ == fold_case(s@.take(i as int)),
        decreases s.len() - i,
    {
        out.push(lower(s[i]));
        proof {
            assert(out@ =~= fold_case(s@.take(i + 1)));
        }
        i += 1;
    }
    proof {
        assert(s@.take(s.len() as int) =~= s@);
    }
    out
}

/// The character for a decimal digit.
pub open spec fn digit_char(d: nat) -> char
    recommends
        d < 10,
{
    (('0' as u8) + d) as char
}

/// The decimal numeral of `n`, without leading zeros.
pub open spec fn decimal(n: nat) -> Seq<char>
    decreases n,
{
    if n < 10 {
        seq![digit_char(n)]
    } else {
        decimal(n / 10).push(digit_char(n % 10))
    }
}

/// The decimal numeral of `n`.
pub fn decimal_text(n: u128) -> (out: Vec<char>)
    ensures
        out@ == decimal(n as nat),
{
    let mut out: Vec<char> = Vec::new();
    let mut m: u128 = n;
    proof {
        assert(decimal(n as nat) + out@ =~= decimal(n as nat));
    }
    while m >= 10
        invariant
            decimal(n as nat) == decimal(m as nat) + out@,
        decreases m,
    {
        let d: u8 = (m % 10) as u8;
        let ghost before = out@;
        out.insert(0, (48u8 + d) as char);
        proof {
            assert(out@ =~= seq![digit_char((m % 10) as nat)] + before);
            assert(decimal(m as nat) + before =~= decimal((m / 10) as nat) + out@);
        }
        m = m / 10;
    }
    let d: u8 = m as u8;
    let ghost before = out@;
    out.insert(0, (48u8 + d) as char);
    proof {
        assert(out@ =~= seq![digit_char(m as nat)] + before);
    }
    out
}

} // verus!
