//! One-line folding and truncation.

use status_monitor::strings::{
    at_most, contains, i64_text, is_whitespace, replace_all, starts_with, to_ascii_lowercase, trim,
    u64_text,
};
use status_monitor::text::{single_line, truncate_bytes, truncate_chars};

#[test]
fn folding_sequences_collapse_into_one_line() {
    assert_eq!(
        single_line("bug\r\nBcc: evil@example.test"),
        "bug Bcc: evil@example.test"
    );
    assert_eq!(single_line("a\tb\u{0}c"), "a b c");
    assert_eq!(single_line("  padded  "), "padded");
}

#[test]
fn truncate_bytes_caps_on_char_boundary() {
    assert_eq!(truncate_bytes("short", 10), "short");
    assert_eq!(truncate_bytes("exact!", 6), "exact!");
    let t = truncate_bytes("overflowing", 8);
    assert!(t.len() <= 8, "{t}");
    assert!(t.ends_with('…'));
    // Multibyte content is capped by BYTES without splitting a char.
    let s = "é".repeat(100); // 200 bytes
    let t = truncate_bytes(&s, 16);
    assert!(t.len() <= 16, "{}", t.len());
    assert!(t.ends_with('…'));
}

#[test]
fn truncate_chars_caps_with_ellipsis() {
    assert_eq!(truncate_chars("short", 10), "short");
    assert_eq!(truncate_chars("exactly", 7), "exactly");
    assert_eq!(truncate_chars("overflowing", 5), "over…");
    // Multi-byte chars count as one; no byte-boundary panic.
    let s = "é".repeat(10);
    assert_eq!(truncate_chars(&s, 4).chars().count(), 4);
    assert!(truncate_chars(&s, 4).ends_with('…'));
}

#[test]
fn a_folded_line_folds_to_itself() {
    let once = single_line(" a\u{85}\u{7f}b \n\n c ");
    assert_eq!(once, "a b c");
    assert_eq!(single_line(&once), once);
    assert_eq!(single_line("\r\n\t"), "");
}

#[test]
fn truncated_text_is_a_prefix_and_an_ellipsis() {
    assert_eq!(truncate_bytes("overflowing", 8), "overf…");
    assert_eq!(truncate_bytes("ééééé", 8), "éé…");
}

#[test]
fn a_cap_is_hard_where_the_ellipsis_does_not_fit() {
    assert_eq!(truncate_bytes("overflowing", 0), "");
    assert_eq!(truncate_bytes("overflowing", 1), "o");
    assert_eq!(truncate_bytes("overflowing", 2), "ov");
    assert_eq!(truncate_bytes("overflowing", 3), "…");
    assert_eq!(truncate_bytes("oé", 2), "o");
    assert_eq!(truncate_bytes("éé", 1), "");
    assert_eq!(truncate_bytes("", 0), "");
    assert_eq!(truncate_chars("overflowing", 0), "");
    assert_eq!(truncate_chars("overflowing", 1), "…");
    assert_eq!(truncate_chars("", 0), "");
}

#[test]
fn whitespace_is_what_std_calls_whitespace() {
    for c in '\u{0}'..=char::MAX {
        assert_eq!(is_whitespace(c), c.is_whitespace(), "{:?}", c);
    }
}

#[test]
fn text_helpers_do_what_std_does() {
    for s in ["", " a ", "\u{2003}Grüße\n", "xaxbxax", "ÄB"] {
        assert_eq!(trim(s), s.trim());
        assert_eq!(to_ascii_lowercase(s), s.to_ascii_lowercase());
        for p in ["", "x", "xa", "Grü", " "] {
            assert_eq!(starts_with(s, p), s.starts_with(p));
            assert_eq!(contains(s, p), s.contains(p));
            assert_eq!(at_most(s, p), s <= p);
            if !p.is_empty() {
                assert_eq!(replace_all(s, p, "<>"), s.replace(p, "<>"));
            }
        }
    }
    assert_eq!(replace_all("aaa", "aa", "b"), "ba");
}

#[test]
fn numbers_read_in_decimal() {
    for n in [0u64, 7, 10, 4096, u64::MAX] {
        assert_eq!(u64_text(n), n.to_string());
    }
    for n in [i64::MIN, -40, -1, 0, 99, i64::MAX] {
        assert_eq!(i64_text(n), n.to_string());
    }
}
