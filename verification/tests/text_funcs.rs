use frd::text::{char_is_ws, decimal_string, is_blank, join_strings, str_contains, str_eq, str_starts_with, trim_end_str};

#[test]
fn decimal_matches_std() {
    for n in [0u64, 7, 10, 99, 100, 1234567890, u64::MAX] {
        assert_eq!(decimal_string(n), n.to_string());
    }
}

#[test]
fn whitespace_matches_std_for_every_char() {
    for u in 0..0x110000u32 {
        if let Some(c) = char::from_u32(u) {
            assert_eq!(char_is_ws(c), c.is_whitespace(), "U+{u:04X}");
        }
    }
}

#[test]
fn trimming_and_blank_match_std() {
    for s in ["", "  ", "a  \t\n", " a b ", "x\u{3000}", "\u{a0}y\u{a0}", "é "] {
        assert_eq!(trim_end_str(s), s.trim_end());
        assert_eq!(is_blank(s), s.trim().is_empty());
    }
}

#[test]
fn searching_matches_std() {
    let cases = [("hello world", "o w"), ("abc", ""), ("", "a"), ("aaab", "aab"), ("nightly-2025", "nightly")];
    for (a, b) in cases {
        assert_eq!(str_contains(a, b), a.contains(b), "{a:?} {b:?}");
        assert_eq!(str_starts_with(a, b), a.starts_with(b), "{a:?} {b:?}");
        assert_eq!(str_eq(a, b), a == b);
    }
}

#[test]
fn joining_matches_std() {
    let parts: Vec<String> = vec!["a".into(), "bc".into(), "".into(), "d".into()];
    assert_eq!(join_strings(&parts, ", "), parts.join(", "));
    assert_eq!(join_strings(&vec![], "x"), "");
}
