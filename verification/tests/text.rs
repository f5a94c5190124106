use bones::text::{
    chars_of, clip, decimal_text, format_duration_secs, format_points, is_control, is_space,
    sanitize_name, text_of, trim,
};

#[test]
fn points_are_grouped_by_thousands() {
    let cases = [
        (0, "0"),
        (7, "7"),
        (50, "50"),
        (999, "999"),
        (1_000, "1,000"),
        (10_000, "10,000"),
        (100_000, "100,000"),
        (1_234_567, "1,234,567"),
        (u32::MAX, "4,294,967,295"),
    ];
    for (n, text) in cases {
        assert_eq!(format_points(n), text);
        assert_eq!(format_points(n).replace(",", ""), n.to_string());
    }
}

#[test]
fn numerals_are_those_of_std() {
    for n in [0, 1, 9, 10, 11, 99, 100, 65_535, u64::MAX] {
        assert_eq!(decimal_text(n), n.to_string());
    }
}

#[test]
fn durations_are_in_words() {
    let cases = [
        (0, "0 seconds"),
        (1, "1 second"),
        (30, "30 seconds"),
        (59, "59 seconds"),
        (60, "1 minute"),
        (119, "1 minute"),
        (120, "2 minutes"),
        (1_800, "30 minutes"),
    ];
    for (secs, text) in cases {
        assert_eq!(format_duration_secs(secs), text);
    }
}

#[test]
fn character_classes_are_those_of_std() {
    for v in 0..=0x10ffffu32 {
        if let Some(c) = char::from_u32(v) {
            assert_eq!(is_control(c), c.is_control(), "{v:x}");
            assert_eq!(is_space(c), c.is_whitespace(), "{v:x}");
        }
    }
}

#[test]
fn trimming_is_that_of_std() {
    for s in ["", " ", "a", " a ", "\u{3000}a b\u{2009}\n", "\t\u{85}", "é "] {
        assert_eq!(trim(s), s.trim());
        assert_eq!(trim(&trim(s)), trim(s));
        assert!(trim(s).chars().count() <= s.chars().count());
    }
}

#[test]
fn clipping_trims_first() {
    assert_eq!(clip("  abcdef ", 3), "abc");
    assert_eq!(clip("  ab ", 3), "ab");
    assert_eq!(clip("é—x", 2), "é—");
    assert_eq!(clip("abc", 0), "");
}

#[test]
fn names_are_short_and_printable() {
    assert_eq!(sanitize_name("  Ann  "), "Ann");
    assert_eq!(sanitize_name("A\u{0}n\nn"), "Ann");
    assert_eq!(sanitize_name(""), "Player");
    assert_eq!(sanitize_name(" \t "), "Player");
    assert_eq!(sanitize_name("abcdefghijklmnopqrstuvwxyz"), "abcdefghijklmnopqrst");
    assert_eq!(sanitize_name("                    x"), "Player");
}

#[test]
fn characters_make_up_their_text() {
    let chars = chars_of("a—b");
    assert_eq!(chars, vec!['a', '—', 'b']);
    assert_eq!(text_of(&chars, 1, 3), "—b");
    assert_eq!(text_of(&chars, 1, 1), "");
}
