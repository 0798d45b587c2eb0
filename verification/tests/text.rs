use pass_provision::text::chars_of;
use pass_provision::text::find_char;
use pass_provision::text::inner;
use pass_provision::text::is_whitespace;
use pass_provision::text::join_lines;
use pass_provision::text::parse_usize;
use pass_provision::text::split_lines;
use pass_provision::text::split_whitespace;
use pass_provision::text::starts_with;
use pass_provision::text::str_eq;
use pass_provision::text::str_lt;
use pass_provision::text::trim;

#[test]
fn lines_are_split_as_the_standard_library_splits_them() {
    for text in [
        "",
        "\n",
        "a",
        "a\n",
        "a\nb",
        "a\r\nb\r\n",
        "a\rb\n",
        "\r\n\r\n",
        "a\n\nb\n",
        "last\r",
        "\n\nx",
        "h\u{e9}llo\nw\u{f6}rld\n",
    ] {
        let expected: Vec<String> = text.lines().map(|line| line.to_string()).collect();
        assert_eq!(split_lines(text), expected, "{:?}", text);
    }
    assert_eq!(split_lines("a\r\nb\n\nc"), vec!["a", "b", "", "c"]);
}

#[test]
fn joined_lines_end_with_a_line_feed_each() {
    assert_eq!(join_lines(&vec!["a".to_string(), "".to_string(), "b c".to_string()]), "a\n\nb c\n");
    assert_eq!(join_lines(&Vec::new()), "");
    let lines = vec!["one".to_string(), "two".to_string()];
    assert_eq!(split_lines(&join_lines(&lines)), lines);
}

#[test]
fn words_are_split_as_the_standard_library_splits_them() {
    for text in ["", "  ", "a", " a  b\tc\n", "uid [ unknown] Name <n@x>", "\u{a0}x\u{2003}y\u{3000}"] {
        let expected: Vec<String> = text.split_whitespace().map(|word| word.to_string()).collect();
        assert_eq!(split_whitespace(text), expected, "{:?}", text);
    }
}

#[test]
fn white_space_is_what_unicode_says() {
    for code in 0..0x3100u32 {
        if let Some(c) = char::from_u32(code) {
            assert_eq!(is_whitespace(c), c.is_whitespace(), "{:x}", code);
        }
    }
}

#[test]
fn trimming_takes_the_white_space_off_both_ends() {
    for text in ["", " ", "a", "  a b  ", "\n1\r\n", "\t\u{a0}x y\u{2028}", "   "] {
        assert_eq!(trim(text), text.trim(), "{:?}", text);
    }
    assert_eq!(trim(" 12 \n"), "12");
}

#[test]
fn numbers_are_read_as_the_standard_library_reads_them() {
    for text in [
        "", "0", "7", "42", "+42", "007", "-1", "+", "++1", "1+", "4 2", " 42", "42 ", "12a", "a",
        "18446744073709551615", "18446744073709551616", "99999999999999999999999999", "+0",
        "\u{661}",
    ] {
        assert_eq!(parse_usize(text), text.parse::<usize>().ok(), "{:?}", text);
    }
    assert_eq!(parse_usize("1234"), Some(1234));
}

#[test]
fn texts_compare_as_the_standard_library_compares_them() {
    let texts = ["", "a", "A", "ab", "b", "a b", "Z", "z", "\u{e9}", "e\u{301}", "10", "9"];
    for a in texts {
        for b in texts {
            assert_eq!(str_lt(a, b), a < b, "{:?} {:?}", a, b);
            assert_eq!(str_eq(a, b), a == b, "{:?} {:?}", a, b);
        }
    }
}

#[test]
fn prefixes_and_inner_parts() {
    assert!(starts_with("<a@b>", "<"));
    assert!(starts_with("sig", "sig"));
    assert!(starts_with("x", ""));
    assert!(!starts_with("si", "sig"));
    assert!(!starts_with("a<", "<"));
    assert_eq!(inner("<a@b>"), "a@b");
    assert_eq!(inner("<>"), "");
    assert_eq!(inner("<"), "");
    assert_eq!(inner(""), "");
    assert_eq!(inner("\u{e9}x\u{e9}"), "x");
}

#[test]
fn characters_are_found_where_they_first_stand() {
    let chars = chars_of("a[b]c[d");
    assert_eq!(chars, vec!['a', '[', 'b', ']', 'c', '[', 'd']);
    assert_eq!(find_char(&chars, 0, 7, '['), 1);
    assert_eq!(find_char(&chars, 2, 7, '['), 5);
    assert_eq!(find_char(&chars, 2, 5, '['), 5);
    assert_eq!(find_char(&chars, 0, 7, 'x'), 7);
    assert_eq!(find_char(&chars, 3, 3, ']'), 3);
}
