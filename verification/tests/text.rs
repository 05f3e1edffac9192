use v4l2top::text::{
    align_right, append_chars, decimal_chars, find_char, from_chars, parse_number, parse_usize,
    slice_chars, split_lines, to_chars, trim_chars, trim_suffixes, white_space, NumberError,
};

fn text(chars: Vec<char>) -> String {
    from_chars(&chars)
}

#[test]
fn characters_round_trip() {
    for s in ["", "a", "a\u{e9}b", "\u{1f600}\u{0}x"] {
        assert_eq!(from_chars(&to_chars(s)), s);
    }
    assert_eq!(to_chars("ab"), vec!['a', 'b']);
}

#[test]
fn white_space_is_that_of_unicode() {
    for n in 0..=0x10ffffu32 {
        if let Some(c) = char::from_u32(n) {
            assert_eq!(white_space(c), c.is_whitespace(), "{n:x}");
        }
    }
}

#[test]
fn trimming_cuts_both_ends() {
    for s in ["", " ", "a", "  a b \t", "\u{3000}x\u{a0}", "x ", " x", "\u{0}x\u{0}"] {
        assert_eq!(text(trim_chars(&to_chars(s))), s.trim());
    }
}

#[test]
fn lines_are_split_at_line_feeds() {
    for s in ["", "\n", "a", "a\n", "a\nb", "a\r\nb\r\n", "a\n\nb", "\r\n", "a\r", "\n\n", "a\rb\n"] {
        let lines: Vec<String> = split_lines(&to_chars(s)).into_iter().map(text).collect();
        let expected: Vec<String> = s.lines().map(|l| l.to_string()).collect();
        assert_eq!(lines, expected, "{s:?}");
    }
}

#[test]
fn characters_are_found_and_cut_out() {
    let chars = to_chars("a:b:c");
    assert_eq!(find_char(&chars, 0, ':'), 1);
    assert_eq!(find_char(&chars, 2, ':'), 3);
    assert_eq!(find_char(&chars, 4, ':'), 5);
    assert_eq!(text(slice_chars(&chars, 2, 5)), "b:c");
}

#[test]
fn every_copy_of_a_suffix_is_cut_off() {
    let suffix = to_chars(" ns");
    for s in ["12 ns", "12 ns ns", "12", "", " ns", "12 ns ", "ns", "n ns ns ns"] {
        assert_eq!(text(trim_suffixes(&to_chars(s), &suffix)), s.trim_end_matches(" ns"));
    }
    assert_eq!(text(trim_suffixes(&to_chars("abc"), &to_chars(""))), "abc");
}

#[test]
fn numbers_are_read_as_the_standard_library_reads_them() {
    let max = u64::MAX.to_string();
    for s in [
        "0", "7", "+7", "007", "+", "-", "-1", "", " 1", "1 ", "1_0", "\u{0661}", "++1", "12a",
        "18446744073709551616", "18446744073709551615", "99999999999999999999x", max.as_str(),
    ] {
        let expected = s.parse::<u64>();
        match parse_number(&to_chars(s), u64::MAX) {
            Ok(n) => assert_eq!(expected, Ok(n), "{s:?}"),
            Err(e) => assert_eq!(expected.unwrap_err().to_string(), e.message(), "{s:?}"),
        }
    }
}

#[test]
fn number_errors_tell_what_is_wrong() {
    assert_eq!(parse_number(&to_chars(""), 10), Err(NumberError::Empty));
    assert_eq!(parse_number(&to_chars("1x"), 10), Err(NumberError::InvalidDigit));
    assert_eq!(parse_number(&to_chars("11"), 10), Err(NumberError::TooLarge));
    assert_eq!(parse_number(&to_chars("10"), 10), Ok(10));
    assert_eq!(parse_number(&to_chars("111x"), 10), Err(NumberError::TooLarge));
    assert_eq!(NumberError::Empty.message(), "cannot parse integer from empty string");
    assert_eq!(NumberError::InvalidDigit.message(), "invalid digit found in string");
    assert_eq!(NumberError::TooLarge.message(), "number too large to fit in target type");
}

#[test]
fn usize_numbers_stop_at_the_largest() {
    assert_eq!(parse_usize(&to_chars(&usize::MAX.to_string())), Ok(usize::MAX));
    assert_eq!(
        parse_usize(&to_chars("340282366920938463463374607431768211456")),
        Err(NumberError::TooLarge)
    );
}

#[test]
fn numbers_round_trip() {
    for n in [0, 1, 9, 10, 11, 99, 100, 12345, u64::MAX - 1, u64::MAX] {
        assert_eq!(text(decimal_chars(n)), n.to_string());
        assert_eq!(parse_number(&decimal_chars(n), u64::MAX), Ok(n));
    }
}

#[test]
fn texts_are_aligned_to_the_right() {
    assert_eq!(text(align_right(&to_chars("42"), 5)), "   42");
    assert_eq!(text(align_right(&to_chars("12345"), 3)), "12345");
    assert_eq!(text(align_right(&to_chars(""), 0)), "");
}

#[test]
fn characters_are_appended() {
    let mut chars = to_chars("ab");
    append_chars(&mut chars, &to_chars("cd"));
    assert_eq!(text(chars), "abcd");
}
