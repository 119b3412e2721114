use barzel::text;

#[test]
fn texts_are_found_at_their_first_place() {
    assert_eq!(text::find("aéaé", "é"), Some(1));
    assert_eq!(text::find("abc", "x"), None);
    assert_eq!(text::find("abc", ""), Some(0));
    assert_eq!(text::rfind("a-b-c", '-'), Some(3));
}

#[test]
fn trimming_goes_by_unicode_whitespace() {
    for s in ["  a b \n", "\u{a0}x\u{3000}", "\u{85}", "", "a", "\u{200b}a"] {
        assert_eq!(text::trim(s), s.trim());
        assert_eq!(text::trim_start(s), s.trim_start());
        assert_eq!(text::trim_end(s), s.trim_end());
    }
}

#[test]
fn lines_end_as_usual() {
    for s in ["", "a", "a\n", "a\r\nb", "\n\n", "a\rb\n", "x\r", "é\r\n\r\n"] {
        let usual: Vec<&str> = s.lines().collect();
        assert_eq!(text::lines(s), usual);
    }
}

#[test]
fn words_are_cut_at_whitespace() {
    for s in ["", " ", "a b  c", "\tx\u{2003}y\n"] {
        let usual: Vec<&str> = s.split_whitespace().collect();
        assert_eq!(text::words(s), usual);
    }
}

#[test]
fn pieces_stand_between_separators() {
    for s in ["", "a", "a/b", "/", "a//b/"] {
        let usual: Vec<&str> = s.split('/').collect();
        assert_eq!(text::split(s, '/'), usual);
    }
}

#[test]
fn numbers_are_read_as_usual() {
    for s in ["0", "42", "+7", "-1", "", "+", "18446744073709551615", "18446744073709551616", "1 ", "٣"] {
        assert_eq!(text::parse_u64(s), s.parse::<u64>().ok());
    }
}

#[test]
fn numbers_are_written_as_usual() {
    for n in [0, 9, 10, 1234567890, u64::MAX] {
        assert_eq!(text::number(n), n.to_string());
        assert_eq!(text::parse_u64(&text::number(n)), Some(n));
    }
}

#[test]
fn fronts_are_cut_between_characters() {
    assert_eq!(text::front_bytes("aéb", 3).as_deref(), Some("aé"));
    assert_eq!(text::front_bytes("aéb", 2), None);
    assert_eq!(text::front_bytes("ab", 3), None);
    assert!(text::bytes_within("aé", 3));
    assert!(!text::bytes_within("aé", 2));
}

#[test]
fn ends_are_stripped_one_by_one() {
    assert_eq!(text::trim_char("--a-b--", '-'), "a-b");
    assert_eq!(text::strip_prefix("abc", "ab").as_deref(), Some("c"));
    assert_eq!(text::strip_suffix("abc", "bc").as_deref(), Some("a"));
    assert_eq!(text::strip_suffix("abc", "x"), None);
    assert_eq!(text::trim_start_set("*#! x", "*#"), "! x");
    assert_eq!(text::trim_start_text("ababx", "ab"), "x");
}

#[test]
fn joins_and_replacements() {
    let parts = vec!["a".to_string(), "b".to_string()];
    assert_eq!(text::join(&parts, ", "), "a, b");
    assert_eq!(text::join(&vec![], ", "), "");
    assert_eq!(text::replace("it's", '\'', "'\\''"), "it'\\''s");
}

#[test]
fn words_before_labels() {
    assert_eq!(text::word_ahead("12 passed, 3 failed", " failed").as_deref(), Some("3"));
    assert_eq!(text::word_ahead("failed", "failed"), None);
    assert_eq!(text::first_word("  x y").as_deref(), Some("x"));
    assert_eq!(text::last_word("x y  ").as_deref(), Some("y"));
}
