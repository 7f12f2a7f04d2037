use patchcord::modules::parse_module_id;
use patchcord::text::{
    comes_before, contains, join, lines, lower, number_text, same_text, starts_with, strip_prefix,
    text_before, trim,
};

#[test]
fn white_space_is_trimmed() {
    assert_eq!(trim(" \t a b \r\n"), "a b");
    assert_eq!(trim("\u{3000}x\u{a0}"), "x");
    assert_eq!(trim("   "), "");
    assert_eq!(trim(""), "");
}

#[test]
fn trimming_agrees_with_the_standard_library() {
    for c in (0..0x3100u32).filter_map(char::from_u32) {
        let text = format!("{c}x{c}");
        assert_eq!(trim(&text), text.trim());
    }
}

#[test]
fn lines_end_at_line_feeds() {
    assert_eq!(lines("a\nb\r\n\nc"), vec!["a", "b", "", "c"]);
    assert_eq!(lines("a\n"), vec!["a"]);
    assert_eq!(lines("a\r"), vec!["a\r"]);
    assert_eq!(lines("\n"), vec![""]);
    assert!(lines("").is_empty());
}

#[test]
fn parts_are_found() {
    assert!(contains("file exists", "exists"));
    assert!(contains("x", ""));
    assert!(!contains("exist", "exists"));
    assert!(starts_with("Audio/Sink/Virtual", "Audio/Sink"));
    assert!(!starts_with("Audio", "Audio/Sink"));
    assert_eq!(strip_prefix("Server Name: x", "Server Name:").as_deref(), Some(" x"));
    assert_eq!(strip_prefix("x", "Server Name:"), None);
    assert_eq!(text_before("a:b [c] [d]", " ["), "a:b");
    assert_eq!(text_before("a:b", " ["), "a:b");
    assert_eq!(text_before(" [x", " ["), "");
}

#[test]
fn lower_case_is_for_ascii() {
    assert_eq!(lower("PipeWire ÄÖ Z@[`{"), "pipewire ÄÖ z@[`{");
}

#[test]
fn texts_are_ordered_like_strings() {
    let words = ["", "a", "aa", "ab", "b", "Z", "ä", "\u{10000}", "\u{ffff}"];
    for a in words {
        for b in words {
            assert_eq!(comes_before(a, b), a < b);
            assert_eq!(same_text(a, b), a == b);
        }
    }
}

#[test]
fn numbers_are_written_in_decimal() {
    for n in [0, 9, 10, 42, 1000, u64::MAX] {
        assert_eq!(number_text(n), n.to_string());
    }
}

#[test]
fn texts_are_joined() {
    let items: Vec<String> = vec!["a".to_string(), "b".to_string(), "".to_string()];
    assert_eq!(join(&items, "; "), "a; b; ");
    assert_eq!(join(&vec!["a".to_string()], "; "), "a");
    assert_eq!(join(&Vec::new(), "; "), "");
}

#[test]
fn numbers_read_back() {
    for n in [0, 7, 10, 536870913, u32::MAX] {
        let text = number_text(u64::from(n));
        assert!(matches!(parse_module_id(&text), Ok(read) if read == n));
    }
}
