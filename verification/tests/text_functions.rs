use protogen::text;

fn list(parts: &[&str]) -> Vec<String> {
    parts.iter().map(|p| p.to_string()).collect()
}

fn chars(s: &str) -> Vec<char> {
    s.chars().collect()
}

#[test]
fn whitespace_is_unicode_whitespace() {
    for code in 0..=0x10ffffu32 {
        if let Some(c) = char::from_u32(code) {
            assert_eq!(text::is_whitespace(c), c.is_whitespace(), "{code:x}");
        }
    }
}

#[test]
fn trimming_agrees_with_std() {
    for s in ["", " ", "a", "  a b\t\n", "\u{3000}x\u{a0}", "x y"] {
        assert_eq!(text::trim(s), s.trim());
    }
}

#[test]
fn words_and_lines_agree_with_std() {
    for s in ["", "\n", "a\nb", "a\r\nb\r\n", "a\rb\n\nc", " one  two\tthree\n", "\r\n", "x\r"] {
        let lines: Vec<String> = text::lines(&chars(s)).iter().map(|l| l.iter().collect()).collect();
        let expected: Vec<String> = s.lines().map(String::from).collect();
        assert_eq!(lines, expected, "{s:?}");
        let words: Vec<String> =
            text::split_whitespace(&chars(s)).iter().map(|w| w.iter().collect()).collect();
        let expected: Vec<String> = s.split_whitespace().map(String::from).collect();
        assert_eq!(words, expected, "{s:?}");
    }
}

#[test]
fn splitting_agrees_with_std() {
    for s in ["", "ab", "xabyabz", "ababab", "aab", "abab x"] {
        let pieces: Vec<String> =
            text::split_str(&chars(s), &chars("ab")).iter().map(|p| p.iter().collect()).collect();
        let expected: Vec<String> = s.split("ab").map(String::from).collect();
        assert_eq!(pieces, expected, "{s:?}");
        let pieces: Vec<String> =
            text::split_on(&chars(s), 'b').iter().map(|p| p.iter().collect()).collect();
        let expected: Vec<String> = s.split('b').map(String::from).collect();
        assert_eq!(pieces, expected, "{s:?}");
    }
}

#[test]
fn searching_agrees_with_std() {
    assert_eq!(text::find_at(&chars("hello"), &chars("l"), 0), Some(2));
    assert_eq!(text::find_at(&chars("hello"), &chars("l"), 3), Some(3));
    assert_eq!(text::find_at(&chars("hello"), &chars("x"), 0), None);
    assert_eq!(text::find_at(&chars("abc"), &chars(""), 3), Some(3));
    assert_eq!(text::rfind(&chars("a{b}c}d"), '}'), Some(5));
    assert_eq!(text::rfind(&chars("abc"), '}'), None);
    assert!(text::contains(&chars("konsole"), &chars("sol")));
    assert!(text::contains(&chars("konsole"), &chars("")));
    assert!(!text::contains(&chars("ko"), &chars("konsole")));
    assert!(text::starts_with("open firefox", "open "));
    assert!(!text::starts_with("opens", "open "));
    let rest: String = text::trim_start_matches(&chars("open open x"), &chars("open ")).iter().collect();
    assert_eq!(rest, "x");
}

#[test]
fn joining_and_numbers() {
    assert_eq!(text::join(&list(&[]), ", "), "");
    assert_eq!(text::join(&list(&["a"]), ", "), "a");
    assert_eq!(text::join(&list(&["a", "b", "c"]), ", "), "a, b, c");
    for n in [0u64, 7, 10, 1337, u64::MAX] {
        assert_eq!(text::decimal_text(n), n.to_string());
    }
}

#[test]
fn numbers_are_read_as_std_reads_them() {
    for s in ["", "+", "-1", "0", "1337", "+80", "00080", "65535", "65536", "99999999999", "1 ", "x", "1+"] {
        assert_eq!(text::parse_u16(s), s.parse::<u16>().ok(), "{s:?}");
    }
}

#[test]
fn quotes_are_stripped_on_both_sides() {
    let s: String = text::trim_matches(&chars("\"\"arch\""), '"').iter().collect();
    assert_eq!(s, "arch");
    let s: String = text::trim_matches(&chars("\"\""), '"').iter().collect();
    assert_eq!(s, "");
}

#[test]
fn ascii_case_is_ignored() {
    assert!(text::eq_ignore_ascii_case(&chars("TrUe"), &chars("true")));
    assert!(!text::eq_ignore_ascii_case(&chars("tru"), &chars("true")));
    assert!(!text::eq_ignore_ascii_case(&chars("\u{c4}"), &chars("\u{e4}")));
}

#[test]
fn output_is_decoded_and_repaired() {
    assert_eq!(text::decode_output(&"gr\u{fc}n".as_bytes().to_vec()), "gr\u{fc}n");
    assert_eq!(text::decode_output(&vec![b'a', 0xff, b'b']), "a\u{fffd}b");
}
