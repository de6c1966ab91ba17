use booktui::encoding::text_bytes;
use booktui::playback::words;
use booktui::text::{
    chars_of, common_prefix_len, concat2, concat3, contains_chars, decimal_text,
    ensure_trailing_slash, fold_text, is_white_space, same_ignoring_case, same_text,
    starts_with_chars, string_of, trim_chars,
};
use booktui::time::{parse_duration, Duration};
use booktui::ui::format_duration;

const SAMPLES: [&str; 8] = [
    "",
    "Moby Dick",
    "  spaced\tout \n",
    "ÄÖÜ straße",
    "\u{2003}em space\u{a0}",
    "漢字 and ascii",
    "~/Books/",
    "UPPER lower 123",
];

#[test]
fn characters_round_trip() {
    for sample in SAMPLES {
        let chars = chars_of(sample);
        assert_eq!(chars, sample.chars().collect::<Vec<char>>());
        assert_eq!(string_of(&chars), sample);
    }
}

#[test]
fn trimming_agrees_with_std() {
    for sample in SAMPLES {
        assert_eq!(string_of(&trim_chars(&chars_of(sample))), sample.trim());
    }
}

#[test]
fn white_space_agrees_with_std() {
    for code in 0..0x4000u32 {
        if let Some(c) = char::from_u32(code) {
            assert_eq!(is_white_space(c), c.is_whitespace(), "{code:x}");
        }
    }
}

#[test]
fn folding_agrees_with_std() {
    for sample in SAMPLES {
        assert_eq!(fold_text(sample), sample.to_ascii_lowercase());
    }
    assert!(same_ignoring_case("TiTLe", "title"));
    assert!(!same_ignoring_case("title", "titles"));
    assert!(same_text("Ä", "Ä"));
    assert!(!same_text("Ä", "ä"));
}

#[test]
fn searching_agrees_with_std() {
    for hay in SAMPLES {
        for needle in ["", "o", "ut", "  ", "straße", "missing", "123"] {
            assert_eq!(
                contains_chars(&chars_of(needle), &chars_of(hay)),
                hay.contains(needle)
            );
            assert_eq!(
                starts_with_chars(&chars_of(needle), &chars_of(hay)),
                hay.starts_with(needle)
            );
        }
    }
}

#[test]
fn numbers_and_concatenation() {
    for n in [0u64, 7, 10, 99, 100, 12345, u64::MAX] {
        assert_eq!(decimal_text(n), n.to_string());
    }
    assert_eq!(concat2("a", "b"), "ab");
    assert_eq!(concat3("a", "", "c"), "ac");
    assert_eq!(ensure_trailing_slash("a"), "a/");
    assert_eq!(ensure_trailing_slash("a/"), "a/");
    assert_eq!(ensure_trailing_slash(""), "/");
    assert_eq!(common_prefix_len(&chars_of("books"), &chars_of("boots")), 3);
    assert_eq!(common_prefix_len(&chars_of(""), &chars_of("boots")), 0);
}

#[test]
fn text_bytes_are_utf8() {
    for sample in SAMPLES {
        assert_eq!(text_bytes(sample), sample.as_bytes());
    }
}

#[test]
fn durations_are_formatted() {
    assert_eq!(format_duration(Duration::zero()), "00:00");
    assert_eq!(format_duration(Duration::from_secs(59)), "00:59");
    assert_eq!(format_duration(Duration::from_secs(61)), "01:01");
    assert_eq!(format_duration(Duration::from_secs(3599)), "59:59");
    assert_eq!(format_duration(Duration::from_secs(3600)), "01:00:00");
    assert_eq!(format_duration(Duration::from_secs(3661)), "01:01:01");
    assert_eq!(format_duration(Duration::from_secs(360000)), "100:00:00");
    assert_eq!(format_duration(Duration::from_parts(1, 999_999_999)), "00:01");
}

#[test]
fn durations_are_read() {
    let secs = |notation: &str| parse_duration(notation).map(|span| span.as_secs());
    assert_eq!(secs("30m"), Some(1800));
    assert_eq!(secs("1h"), Some(3600));
    assert_eq!(secs("1h30m"), Some(5400));
    assert_eq!(secs("1h2m3s"), Some(3723));
    assert_eq!(secs(" 45s "), Some(45));
    assert_eq!(secs("0s"), Some(0));
    assert_eq!(secs(""), None);
    assert_eq!(secs("30"), None);
    assert_eq!(secs("m"), None);
    assert_eq!(secs("1x"), None);
    assert_eq!(secs("-30s"), None);
    assert_eq!(secs("99999999999999999999h"), None);
}

#[test]
fn durations_saturate() {
    let longest = Duration::from_parts(u64::MAX, 999_999_999);
    assert_eq!(longest.saturating_add(Duration::from_secs(1)), longest);
    assert_eq!(
        Duration::from_secs(1).saturating_sub(Duration::from_secs(2)),
        Duration::zero()
    );
    assert_eq!(Duration::from_parts(3, 5).subsec_nanos(), 5);
    assert_eq!(Duration::from_parts(3, u32::MAX).subsec_nanos(), 999_999_999);
    assert_eq!(Duration::from_parts(3, 5).nanos(), 3_000_000_005);
    assert!(Duration::zero().is_zero());
    assert!(Duration::from_secs(2).at_least(&Duration::from_secs(2)));
    assert!(!Duration::from_secs(1).at_least(&Duration::from_secs(2)));
    assert_eq!(
        Duration::from_secs(1).shorter(Duration::from_secs(2)),
        Duration::from_secs(1)
    );
}

#[test]
fn lengths_in_words() {
    assert_eq!(words(1800), "30 minutes");
    assert_eq!(words(60), "1 minute");
    assert_eq!(words(90), "90 seconds");
    assert_eq!(words(1), "1 second");
    assert_eq!(words(0), "0 minutes");
}
