use bots_core::decimal::{labelled, parse_unsigned, to_decimal, IntError};
use bots_core::text::{
    ends_with, from_chars, same_text, space, starts_with, to_chars, trim, trim_end_matches,
    trim_start_matches,
};

#[test]
fn white_space_is_what_unicode_says() {
    for n in 0..=0x10ffffu32 {
        if let Some(c) = char::from_u32(n) {
            assert_eq!(space(c), c.is_whitespace(), "{n:x}");
        }
    }
}

#[test]
fn texts_are_trimmed_like_std_trims_them() {
    for s in ["", " ", "a", " a b ", "\t\u{2003}x\u{85}", "\u{200b}y ", "//a//", "/", "a/"] {
        assert_eq!(trim(s), s.trim());
        assert_eq!(trim_end_matches(s, '/'), s.trim_end_matches('/'));
        assert_eq!(trim_start_matches(s, '/'), s.trim_start_matches('/'));
    }
}

#[test]
fn starts_and_ends_are_found() {
    for s in ["", "worker_1.json", "worker_", ".json", "json", "xworker_"] {
        assert_eq!(starts_with(s, "worker_"), s.starts_with("worker_"));
        assert_eq!(ends_with(s, ".json"), s.ends_with(".json"));
        assert!(starts_with(s, ""));
        assert!(ends_with(s, ""));
    }
}

#[test]
fn texts_are_compared_character_by_character() {
    assert!(same_text("", ""));
    assert!(same_text("äb", "äb"));
    assert!(!same_text("a", "ab"));
    assert!(!same_text("ab", "aB"));
}

#[test]
fn texts_come_apart_and_together() {
    let chars = to_chars("héllo");
    assert_eq!(chars, vec!['h', 'é', 'l', 'l', 'o']);
    assert_eq!(from_chars(&chars, 1, 4), "éll");
    assert_eq!(from_chars(&chars, 2, 2), "");
}

#[test]
fn integers_are_read_like_std_reads_them() {
    for s in ["0", "443", "+443", "65535", "65536", "", "+", "++1", "4a3", "99999x", " 1"] {
        let ours = parse_unsigned(s, 65535);
        match s.parse::<u16>() {
            Ok(v) => assert_eq!(ours, Ok(v as u128)),
            Err(e) => assert_eq!(ours.unwrap_err().message(), e.to_string()),
        }
    }
    assert_eq!(parse_unsigned("7", 6), Err(IntError::TooLarge));
    assert_eq!(parse_unsigned("7", 7), Ok(7));
}

#[test]
fn integers_are_written_in_base_ten() {
    for n in [0u128, 5, 10, 1_000_000, u128::MAX] {
        assert_eq!(to_decimal(n), n.to_string());
    }
    assert_eq!(labelled("Duration: ", 12, "ms"), "Duration: 12ms");
}
