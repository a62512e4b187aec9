//! Repairs of quoting in shell commands and in JSON text that a language model
//! wrote.

use crate::text::{
    equals_str, find, find_in, from_chars, is_space, is_whitespace, join, join_texts, leading_space,
    lemma_find_from, push_range, slice, texts, to_chars, trim_start,
};
use vstd::prelude::*;

verus! {

/// The number of characters at the beginning of `s` that are no white space.
pub open spec fn token_len(s: Seq<char>) -> int
    decreases s.len(),
{
    if s.len() == 0 || is_whitespace(s[0]) {
        0
    } else {
        1 + token_len(s.drop_first())
    }
}

/// The first word of `s`, where words are separated by white space. It is empty
/// where `s` holds nothing but white space.
pub open spec fn first_token(s: Seq<char>) -> Seq<char> {
    trim_start(s).take(token_len(trim_start(s)))
}

/// The commands whose arguments are paths of files.
pub open spec fn is_file_command(word: Seq<char>) -> bool {
    ||| word == "cat"@
    ||| word == "ls"@
    ||| word == "cp"@
    ||| word == "mv"@
    ||| word == "rm"@
    ||| word == "chmod"@
    ||| word == "chown"@
    ||| word == "file"@
    ||| word == "head"@
    ||| word == "tail"@
    ||| word == "wc"@
    ||| word == "grep"@
}

/// The number of characters at the beginning of `s` that are no spaces.
pub open spec fn word_len(s: Seq<char>) -> int
    decreases s.len(),
{
    if s.len() == 0 || s[0] == ' ' {
        0
    } else {
        1 + word_len(s.drop_first())
    }
}

/// `word_len` lies within the text, and is positive where the text begins with
/// a character that is no space.
pub proof fn lemma_word_len(s: Seq<char>)
    ensures
        0 <= word_len(s) <= s.len(),
        s.len() > 0 && s[0] != ' ' ==> word_len(s) > 0,
    decreases s.len(),
{
    if s.len() == 0 || s[0] == ' ' {
    } else {
        lemma_word_len(s.drop_first());
    }
}

/// The words of `s`: its longest runs of characters that are no spaces.
pub open spec fn space_words(s: Seq<char>) -> Seq<Seq<char>>
    decreases s.len(),
{
    if s.len() == 0 {
        Seq::empty()
    } else if s[0] == ' ' {
        space_words(s.drop_first())
    } else {
        proof {
            lemma_word_len(s);
        }
        seq![s.take(word_len(s))] + space_words(s.skip(word_len(s)))
    }
}

/// Whether `s` holds the character `c`.
pub open spec fn has_char(s: Seq<char>, c: char) -> bool {
    exists|i: int| 0 <= i < s.len() && s[i] == c
}

/// A shell command made safe to run: where its first word is a command that
/// works on files and it holds no quotation mark, its words with one space
/// between neighbours; any other command as it is.
pub open spec fn shell_escaped(command: Seq<char>) -> Seq<char> {
    if is_file_command(first_token(command)) && !has_char(command, '"') && !has_char(
        command,
        '\'',
    ) {
        join(space_words(command), seq![' '])
    } else {
        command
    }
}

/// Whether `s` holds the character `c`.
fn holds_char(s: &Vec<char>, c: char) -> (r: bool)
    ensures
        r == has_char(s@, c),
{
    let mut i: usize = 0;
    while i < s.len()
        invariant
            i <= s.len(),
            forall|k: int| 0 <= k < i ==> s@[k] != c,
        decreases s.len() - i,
    {
        if s[i] == c {
            return true;
        }
        i += 1;
    }
    false
}

/// The first word of `s`, where words are separated by white space.
fn first_word(s: &Vec<char>) -> (word: Vec<char>)
    ensures
        word@ == first_token(s@),
{
    let from = leading_space(s, 0);
    let mut to: usize = from;
    proof {
        assert(s@.skip(0) =~= s@);
    }
    while to < s.len() && !is_space(s[to])
        invariant
            from <= to <= s.len(),
            token_len(s@.skip(from as int)) == (to - from) + token_len(s@.skip(to as int)),
        decreases s.len() - to,
    {
        proof {
            assert(s@.skip(to as int).drop_first() =~= s@.skip(to + 1));
        }
        to += 1;
    }
    proof {
        assert(s@.skip(from as int).take(to - from) =~= s@.subrange(from as int, to as int));
    }
    slice(s, from, to)
}

/// Whether `word` names a command that works on files.
fn names_file_command(word: &Vec<char>) -> (r: bool)
    ensures
        r == is_file_command(word@),
{
    equals_str(word, "cat") || equals_str(word, "ls") || equals_str(word, "cp") || equals_str(word, "mv") || equals_str(word, "rm") || equals_str(word, "chmod") || equals_str(word, "chown") || equals_str(word, "file") || equals_str(word, "head") || equals_str(word, "tail") || equals_str(word, "wc") || equals_str(word, "grep")
}

/// The words of `s` that spaces separate.
fn words_between_spaces(s: &Vec<char>) -> (words: Vec<Vec<char>>)
    ensures
        texts(words@) == space_words(s@),
{
    let mut words: Vec<Vec<char>> = Vec::new();
    let mut i: usize = 0;
    proof {
        assert(s@.skip(0) =~= s@);
        assert(texts(words@) + space_words(s@) =~= space_words(s@));
    }
    while i < s.len()
        invariant
            i <= s.len(),
            space_words(s@) == texts(words@) + space_words(s@.skip(i as int)),
        decreases s.len() - i,
    {
        if s[i] == ' ' {
            proof {
                assert(s@.skip(i as int).drop_first() =~= s@.skip(i + 1));
            }
            i += 1;
        } else {
            let start = i;
            let ghost rest = s@.skip(start as int);
            while i < s.len() && s[i] != ' '
                invariant
                    start <= i <= s.len(),
                    rest == s@.skip(start as int),
                    word_len(rest) == (i - start) + word_len(s@.skip(i as int)),
                decreases s.len() - i,
            {
                proof {
                    assert(s@.skip(i as int).drop_first() =~= s@.skip(i + 1));
                }
                i += 1;
            }
            let word = slice(s, start, i);
            proof {
                assert(rest.take(i - start) =~= word@);
                assert(rest.skip(i - start) =~= s@.skip(i as int));
                assert(texts(words@.push(word)) =~= texts(words@) + seq![word@]);
            }
            words.push(word);
        }
    }
    proof {
        assert(texts(words@) + space_words(s@.skip(s.len() as int)) =~= texts(words@));
    }
    words
}

/// Prepares a shell command for running: a command that works on files and
/// holds no quotation mark is written with single spaces between its words;
/// any other command is returned as it is.
pub fn shell_escape_command(command: &str) -> (escaped: String)
    ensures
        escaped@ == shell_escaped(command@),
{
    let chars = to_chars(command);
    let word = first_word(&chars);
    if names_file_command(&word) && !holds_char(&chars, '"') && !holds_char(&chars, '\'') {
        let words = words_between_spaces(&chars);
        let space: Vec<char> = vec![' '];
        assert(space@ =~= seq![' ']);
        let joined = join_texts(&words, &space);
        from_chars(&joined)
    } else {
        from_chars(&chars)
    }
}

/// How one character of a shell command is written inside a JSON string: a
/// quotation mark that no backslash precedes gets a backslash before it, and a
/// backslash that no quotation mark follows is doubled.
pub open spec fn escaped_char(content: Seq<char>, i: int) -> Seq<char> {
    if content[i] == '"' {
        if i > 0 && content[i - 1] == '\\' {
            seq!['"']
        } else {
            seq!['\\', '"']
        }
    } else if content[i] == '\\' {
        if i + 1 < content.len() && content[i + 1] == '"' {
            seq!['\\']
        } else {
            seq!['\\', '\\']
        }
    } else {
        seq![content[i]]
    }
}

/// The characters of `content` from index `i` on, each written as
/// `escaped_char` says.
pub open spec fn escaped_from(content: Seq<char>, i: int) -> Seq<char>
    decreases content.len() - i,
{
    if i < 0 || i >= content.len() {
        Seq::empty()
    } else {
        escaped_char(content, i) + escaped_from(content, i + 1)
    }
}

/// The text that opens the value of a command in a tool call.
pub open spec fn command_key() -> Seq<char> {
    "\"command\": \""@
}

/// The text that closes the value of a command in a tool call.
pub open spec fn command_end() -> Seq<char> {
    "\" }"@
}

/// A tool call with the quotes inside its shell command repaired. The command
/// is what stands between the first `"command": "` and the first `" }` after
/// it; where either is missing the text is left as it is.
pub open spec fn nested_quotes_fixed(json: Seq<char>) -> Seq<char> {
    match find(json, command_key()) {
        Some(key_at) => {
            let from = key_at + command_key().len();
            match find(json.skip(from), command_end()) {
                Some(len) => json.take(from) + escaped_from(json.subrange(from, from + len), 0)
                    + json.skip(from + len),
                None => json,
            }
        },
        None => json,
    }
}

/// Repairs the quotes inside the shell command of a tool call written as JSON.
pub fn fix_nested_quotes_in_shell_command(json_str: &str) -> (fixed: String)
    ensures
        fixed@ == nested_quotes_fixed(json_str@),
{
    let json = to_chars(json_str);
    let key = to_chars("\"command\": \"");
    let closing = to_chars("\" }");
    let key_at = match find_in(&json, &key) {
        Some(key_at) => key_at,
        None => {
            return from_chars(&json);
        },
    };
    proof {
        lemma_find_from(json@, key@, 0);
    }
    let from = key_at + key.len();
    let rest = slice(&json, from, json.len());
    assert(rest@ =~= json@.skip(from as int));
    let len = match find_in(&rest, &closing) {
        Some(len) => len,
        None => {
            return from_chars(&json);
        },
    };
    proof {
        lemma_find_from(rest@, closing@, 0);
    }
    let content = slice(&json, from, from + len);
    let mut out = slice(&json, 0, from);
    let ghost head = out@;
    let mut i: usize = 0;
    proof {
        assert(head + escaped_from(content@, 0) =~= out@ + escaped_from(content@, 0));
    }
    while i < content.len()
        invariant
            i <= content.len(),
            head + escaped_from(content@, 0) == out@ + escaped_from(content@, i as int),
        decreases content.len() - i,
    {
        let ghost before = out@;
        let c = content[i];
        if c == '"' {
            if i > 0 && content[i - 1] == '\\' {
                out.push('"');
            } else {
                out.push('\\');
                out.push('"');
            }
        } else if c == '\\' {
            if i + 1 < content.len() && content[i + 1] == '"' {
                out.push('\\');
            } else {
                out.push('\\');
                out.push('\\');
            }
        } else {
            out.push(c);
        }
        proof {
            assert(out@ =~= before + escaped_char(content@, i as int));
            assert(out@ + escaped_from(content@, i + 1) =~= before + (escaped_char(
                content@,
                i as int,
            ) + escaped_from(content@, i + 1)));
        }
        i += 1;
    }
    proof {
        assert(out@ + escaped_from(content@, content.len() as int) =~= out@);
    }
    push_range(&mut out, &json, from + len, json.len());
    proof {
        assert(out@ =~= json@.take(from as int) + escaped_from(content@, 0) + json@.skip(
            from + len,
        ));
    }
    from_chars(&out)
}

/// Where the reader of a JSON text stands: outside any string, or inside one
/// that a quotation mark or an apostrophe opened.
pub enum QuoteState {
    Outside,
    InDouble,
    InSingle,
}

/// JSON text from index `i` on, read in state `state`, with the strings that
/// apostrophes delimit turned into strings that quotation marks delimit.
///
/// Outside a string a quotation mark or an apostrophe opens one and is written
/// as a quotation mark. Inside a string the character that opened it closes it
/// and is written as a quotation mark; a quotation mark inside apostrophes gets
/// a backslash before it; a backslash is kept together with the character
/// after it. Every other character is kept.
pub open spec fn requoted_from(json: Seq<char>, i: int, state: QuoteState) -> Seq<char>
    decreases json.len() - i,
{
    if i < 0 || i >= json.len() {
        Seq::empty()
    } else {
        let c = json[i];
        match state {
            QuoteState::Outside => if c == '"' {
                seq!['"'] + requoted_from(json, i + 1, QuoteState::InDouble)
            } else if c == '\'' {
                seq!['"'] + requoted_from(json, i + 1, QuoteState::InSingle)
            } else {
                seq![c] + requoted_from(json, i + 1, QuoteState::Outside)
            },
            QuoteState::InDouble => if c == '"' {
                seq!['"'] + requoted_from(json, i + 1, QuoteState::Outside)
            } else if c == '\\' && i + 1 < json.len() {
                seq!['\\', json[i + 1]] + requoted_from(json, i + 2, QuoteState::InDouble)
            } else {
                seq![c] + requoted_from(json, i + 1, QuoteState::InDouble)
            },
            QuoteState::InSingle => if c == '\'' {
                seq!['"'] + requoted_from(json, i + 1, QuoteState::Outside)
            } else if c == '"' {
                seq!['\\', '"'] + requoted_from(json, i + 1, QuoteState::InSingle)
            } else if c == '\\' && i + 1 < json.len() {
                seq!['\\', json[i + 1]] + requoted_from(json, i + 2, QuoteState::InSingle)
            } else {
                seq![c] + requoted_from(json, i + 1, QuoteState::InSingle)
            },
        }
    }
}

/// JSON text with its apostrophe-delimited strings turned into strings that
/// quotation marks delimit.
pub open spec fn mixed_quotes_fixed(json: Seq<char>) -> Seq<char> {
    requoted_from(json, 0, QuoteState::Outside)
}

/// Turns the strings that apostrophes delimit in a JSON text into strings that
/// quotation marks delimit.
pub fn fix_mixed_quotes_in_json(json_str: &str) -> (fixed: String)
    ensures
        fixed@ == mixed_quotes_fixed(json_str@),
{
    let json = to_chars(json_str);
    let mut out: Vec<char> = Vec::new();
    let mut state = QuoteState::Outside;
    let mut i: usize = 0;
    proof {
        assert(out@ + mixed_quotes_fixed(json@) =~= mixed_quotes_fixed(json@));
    }
    while i < json.len()
        invariant
            i <= json.len(),
            mixed_quotes_fixed(json@) == out@ + requoted_from(json@, i as int, state),
        decreases json.len() - i,
    {
        let ghost before = out@;
        let ghost old_state = state;
        let ghost old_i = i as int;
        let c = json[i];
        match state {
            QuoteState::Outside => {
                if c == '"' {
                    out.push('"');
                    state = QuoteState::InDouble;
                } else if c == '\'' {
                    out.push('"');
                    state = QuoteState::InSingle;
                } else {
                    out.push(c);
                }
                i += 1;
            },
            QuoteState::InDouble => {
                if c == '"' {
                    out.push('"');
                    state = QuoteState::Outside;
                    i += 1;
                } else if c == '\\' && i + 1 < json.len() {
                    out.push('\\');
                    out.push(json[i + 1]);
                    i += 2;
                } else {
                    out.push(c);
                    i += 1;
                }
            },
            QuoteState::InSingle => {
                if c == '\'' {
                    out.push('"');
                    state = QuoteState::Outside;
                    i += 1;
                } else if c == '"' {
                    out.push('\\');
                    out.push('"');
                    i += 1;
                } else if c == '\\' && i + 1 < json.len() {
                    out.push('\\');
                    out.push(json[i + 1]);
                    i += 2;
                } else {
                    out.push(c);
                    i += 1;
                }
            },
        }
        proof {
            let piece = out@.subrange(before.len() as int, out@.len() as int);
            assert(out@ =~= before + piece);
            assert(requoted_from(json@, old_i, old_state) =~= piece + requoted_from(
                json@,
                i as int,
                state,
            ));
            assert(out@ + requoted_from(json@, i as int, state) =~= before + (piece
                + requoted_from(json@, i as int, state)));
        }
    }
    proof {
        assert(out@ + requoted_from(json@, json.len() as int, state) =~= out@);
    }
    from_chars(&out)
}

} // verus!
