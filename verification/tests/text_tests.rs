use g3_core::text::{
    case_folded, char_index_at, contains_text, decimal_text, ends_with, find_in, from_chars,
    is_space, join_texts, lower, normalized, split_lines, starts_with, to_chars, trimmed,
    utf8_len_of_prefix, width_of,
};

fn chars(s: &str) -> Vec<char> {
    s.chars().collect()
}

const SAMPLES: [&str; 16] = [
    "",
    "a",
    "\n",
    "a\n",
    "a\nb",
    "a\r\nb\r\n",
    "a\rb\r",
    "\r\n\r\n",
    "\n\n\na\n\n",
    "a\r\r\nb",
    "  x y  ",
    "\t\u{a0}é\u{3000}\n",
    "日本語\r\nテキスト\r",
    "ab\u{85}cd\u{2028}",
    "- [ ] a\n- [x] b\r\n",
    "\r",
];

#[test]
fn characters_survive_the_way_to_and_from_strings() {
    for s in SAMPLES {
        assert_eq!(to_chars(s), chars(s));
        assert_eq!(from_chars(&chars(s)), s);
    }
}

#[test]
fn lines_are_those_of_the_standard_library() {
    for s in SAMPLES {
        let expected: Vec<Vec<char>> = s.lines().map(chars).collect();
        assert_eq!(split_lines(&chars(s)), expected, "{:?}", s);
    }
    assert_eq!(split_lines(&chars("a\r\nb\r")), vec![chars("a"), chars("b\r")]);
    assert!(split_lines(&chars("")).is_empty());
}

#[test]
fn trimming_is_that_of_the_standard_library() {
    for s in SAMPLES {
        assert_eq!(trimmed(&chars(s)), chars(s.trim()), "{:?}", s);
    }
    assert_eq!(trimmed(&chars(" \u{2003}a b\u{205f}\n")), chars("a b"));
}

#[test]
fn white_space_is_that_of_unicode() {
    let mut count = 0;
    for code in 0..=0x10FFFFu32 {
        if let Some(c) = char::from_u32(code) {
            assert_eq!(is_space(c), c.is_whitespace(), "{:x}", code);
            if is_space(c) {
                count += 1;
            }
        }
    }
    assert_eq!(count, 25);
}

#[test]
fn widths_are_those_of_utf8() {
    for code in 0..=0x10FFFFu32 {
        if let Some(c) = char::from_u32(code) {
            assert_eq!(width_of(c), c.len_utf8(), "{:x}", code);
        }
    }
    assert_eq!(width_of('a'), 1);
    assert_eq!(width_of('é'), 2);
    assert_eq!(width_of('日'), 3);
    assert_eq!(width_of('😀'), 4);
}

#[test]
fn case_folding_touches_ascii_capitals_only() {
    for code in 0..=0x10FFFFu32 {
        if let Some(c) = char::from_u32(code) {
            assert_eq!(lower(c), c.to_ascii_lowercase(), "{:x}", code);
        }
    }
    assert_eq!(case_folded(&chars("YeS É İ \u{212a}")), chars("yes É İ \u{212a}"));
}

#[test]
fn decimal_numerals_are_those_of_the_standard_library() {
    for n in [0u128, 1, 9, 10, 11, 99, 100, 1234567890, u64::MAX as u128, u128::MAX] {
        assert_eq!(decimal_text(n), chars(&n.to_string()));
    }
}

#[test]
fn searching_finds_the_first_occurrence() {
    let hay = chars("abcabc é abc");
    assert_eq!(find_in(&hay, &chars("bc")), Some(1));
    assert_eq!(find_in(&hay, &chars("é a")), Some(7));
    assert_eq!(find_in(&hay, &chars("")), Some(0));
    assert_eq!(find_in(&hay, &chars("abcd")), None);
    assert_eq!(find_in(&chars(""), &chars("")), Some(0));
    assert_eq!(find_in(&chars(""), &chars("a")), None);
    assert_eq!(find_in(&chars("aab"), &chars("ab")), Some(1));
    assert!(contains_text(&hay, &chars("c é")));
    assert!(!contains_text(&hay, &chars("cb")));
    assert!(starts_with(&hay, &chars("abc")));
    assert!(starts_with(&hay, &chars("")));
    assert!(!starts_with(&chars("ab"), &chars("abc")));
    assert!(ends_with(&hay, &chars(" abc")));
    assert!(ends_with(&hay, &chars("")));
    assert!(!ends_with(&chars("bc"), &chars("abc")));
}

#[test]
fn joining_puts_the_separator_between_parts() {
    let parts = vec![chars("a"), chars(""), chars("bc")];
    assert_eq!(join_texts(&parts, &chars(", ")), chars("a, , bc"));
    assert_eq!(join_texts(&vec![], &chars(", ")), chars(""));
    assert_eq!(join_texts(&vec![chars("x")], &chars(", ")), chars("x"));
}

#[test]
fn line_endings_are_normalized_to_line_feeds() {
    for s in SAMPLES {
        let expected = s.replace("\r\n", "\n").replace('\r', "\n");
        assert_eq!(normalized(&chars(s)), chars(&expected), "{:?}", s);
    }
    assert_eq!(normalized(&chars("a\r\r\nb\n\r")), chars("a\n\nb\n\n"));
}

#[test]
fn byte_offsets_snap_forward_to_character_boundaries() {
    let s = "aé日😀b";
    let text = chars(s);
    // The characters begin at the bytes 0, 1, 3, 6 and 10; the text ends at 11.
    let expected = [0, 1, 2, 2, 3, 3, 3, 4, 4, 4, 4, 5, 5, 5];
    for (offset, index) in expected.iter().enumerate() {
        assert_eq!(char_index_at(&text, offset), *index, "offset {}", offset);
    }
    for upto in 0..=text.len() {
        let bytes: usize = text[..upto].iter().map(|c| c.len_utf8()).sum();
        assert_eq!(utf8_len_of_prefix(&text, upto), bytes);
    }
    assert_eq!(utf8_len_of_prefix(&text, text.len()), s.len());
    assert_eq!(char_index_at(&text, usize::MAX), text.len());
}
