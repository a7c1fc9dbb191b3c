use mama::decimal::{parse_unsigned, push_decimal, push_zero_padded};
use mama::text::{chars_of, is_whitespace, same_text, string_of};
use mama::words::{join_from, split_words};

fn words_of(s: &str) -> Vec<String> {
    split_words(&chars_of(s)).iter().map(string_of).collect()
}

#[test]
fn white_space_is_what_the_standard_library_takes_for_it() {
    for code in 0..=0x10ffffu32 {
        if let Some(c) = char::from_u32(code) {
            assert_eq!(is_whitespace(c), c.is_whitespace(), "{:x}", code);
        }
    }
}

#[test]
fn words_are_what_the_standard_library_splits() {
    for line in ["", " ", "a", " a ", "a b", "a  b\tc\n", "\u{a0}x\u{2003}y\u{3000}", "  lead", "trail  ", "ünï cödé"] {
        let expected: Vec<String> = line.split_whitespace().map(str::to_string).collect();
        assert_eq!(words_of(line), expected, "{:?}", line);
    }
}

#[test]
fn words_are_joined_by_single_spaces() {
    let words = split_words(&chars_of(" a  bb   ccc "));
    assert_eq!(string_of(&join_from(&words, 0)), "a bb ccc");
    assert_eq!(string_of(&join_from(&words, 1)), "bb ccc");
    assert_eq!(string_of(&join_from(&words, 2)), "ccc");
    assert_eq!(string_of(&join_from(&words, 3)), "");
}

#[test]
fn text_goes_to_characters_and_back() {
    for s in ["", "abc", "ß§Ö…✔"] {
        let chars = chars_of(s);
        assert_eq!(chars, s.chars().collect::<Vec<char>>());
        assert_eq!(string_of(&chars), s);
    }
    assert!(same_text("ls", "ls"));
    assert!(!same_text("ls", "l"));
    assert!(!same_text("ls", "lt"));
    assert!(same_text("", ""));
}

#[test]
fn unsigned_numbers_are_read_as_the_standard_library_reads_them() {
    for text in ["0", "1", "+1", "007", "42", "4294967295", "4294967296", "18446744073709551615", "18446744073709551616", "99999999999999999999999", "", "+", "-0", "1a", "a", " 1", "+-1", "١"] {
        assert_eq!(parse_unsigned(&chars_of(text)), text.parse::<usize>().ok(), "{:?}", text);
    }
}

#[test]
fn numbers_are_written_in_decimal() {
    for n in [0u128, 1, 9, 10, 11, 99, 100, 101, 65535, u64::MAX as u128, u128::MAX] {
        let mut out = vec!['#'];
        push_decimal(&mut out, n);
        assert_eq!(string_of(&out), format!("#{}", n));
    }
}

#[test]
fn numbers_are_filled_up_with_zeros() {
    for (n, width, expected) in [(0u128, 0usize, "0"), (0, 1, "0"), (0, 2, "00"), (7, 2, "07"), (12, 2, "12"), (123, 2, "123"), (5, 4, "0005"), (2019, 4, "2019")] {
        let mut out = Vec::new();
        push_zero_padded(&mut out, n, width);
        assert_eq!(string_of(&out), expected);
    }
}

#[test]
fn white_space_is_taken_off_both_ends() {
    for s in ["", " ", "a", " a", "a ", " a b ", "\t\u{a0}a  b\u{3000}\n", "  \r\n "] {
        let expected: Vec<char> = s.trim().chars().collect();
        assert_eq!(mama::text::trim(&chars_of(s)), expected, "{:?}", s);
    }
}

#[test]
fn a_text_is_found_where_the_standard_library_finds_it() {
    for (hay, needle) in [("", ""), ("a", ""), ("", "a"), ("abc", "bc"), ("abc", "abcd"), ("aab", "ab"), ("abab", "bab"), ("abc", "ac"), ("ääö", "äö")] {
        assert_eq!(
            mama::text::contains(&chars_of(hay), &chars_of(needle)),
            hay.contains(needle),
            "{:?} {:?}",
            hay,
            needle
        );
    }
}

#[test]
fn bytes_are_counted_as_the_standard_library_counts_them() {
    for s in ["", "a", "ä", "…", "✔", "😀", "aä…😀", "\u{7f}\u{80}\u{7ff}\u{800}\u{ffff}\u{10000}"] {
        assert_eq!(mama::text::byte_length(&chars_of(s)), Some(s.len()), "{:?}", s);
    }
    for code in [0x7fu32, 0x80, 0x7ff, 0x800, 0xffff, 0x10000, 0x10ffff] {
        let c = char::from_u32(code).unwrap();
        assert_eq!(mama::text::width_of(c), c.len_utf8());
    }
}

#[test]
fn spaces_are_appended() {
    let mut out = vec!['a'];
    mama::text::push_spaces(&mut out, 3);
    mama::text::push_chars(&mut out, &vec!['b', 'c']);
    assert_eq!(string_of(&out), "a   bc");
    assert!(mama::text::same_chars(&out, &chars_of("a   bc")));
    assert_eq!(mama::decimal::digit_of('7'), Some(7));
    assert_eq!(mama::decimal::digit_of('a'), None);
    assert_eq!(mama::decimal::char_of_digit(7), '7');
}
