use obs_overlay_exporter::text::{
    find_chars, i64_to_decimal, join, replace_text, starts_with, text_after_last, usize_to_decimal,
};
use obs_overlay_exporter::utils::{fix_mojibake, get_web_font};

#[test]
fn fix_mojibake_repairs_latin1_reading() {
    assert_eq!(fix_mojibake("JÃ¡"), "Já");
    assert_eq!(fix_mojibake("Sa\u{c3}\u{ad}da"), "Sa\u{ed}da");
    assert_eq!(fix_mojibake("C\u{c3}\u{a2}mera"), "C\u{e2}mera");
}

#[test]
fn fix_mojibake_leaves_ascii_alone() {
    assert_eq!(fix_mojibake(""), "");
    assert_eq!(fix_mojibake("Hello World"), "Hello World");
}

#[test]
fn fix_mojibake_leaves_text_it_cannot_repair() {
    // Not all Latin-1: nothing to repair.
    assert_eq!(fix_mojibake("日本"), "日本");
    assert_eq!(fix_mojibake("Já"), "Já");
    // A lone 0xC3 byte is not valid UTF-8.
    assert_eq!(fix_mojibake("Ã"), "Ã");
    // Decodes to U+FFFD: rejected.
    assert_eq!(fix_mojibake("ï¿½"), "ï¿½");
}

#[test]
fn web_font_mappings() {
    let m = get_web_font("OCR A Extended").unwrap();
    assert_eq!(m.web, "Share Tech Mono");
    assert_eq!(m.google_font, Some("Share+Tech+Mono"));
    let m = get_web_font("Impact").unwrap();
    assert_eq!(m.web, "Anton");
    assert_eq!(m.google_font, Some("Anton"));
    let m = get_web_font("Comic Sans MS").unwrap();
    assert_eq!(m.google_font, Some("Indie+Flower"));
    let m = get_web_font("Arial").unwrap();
    assert_eq!(m.web, "Arial, sans-serif");
    assert_eq!(m.google_font, None);
    let m = get_web_font("Segoe UI").unwrap();
    assert_eq!(m.web, "'Segoe UI', system-ui, sans-serif");
    assert!(get_web_font("Times New Roman").is_none());
    assert!(get_web_font("impact").is_none());
}

#[test]
fn decimal_text() {
    assert_eq!(i64_to_decimal(0), "0");
    assert_eq!(i64_to_decimal(-42), "-42");
    assert_eq!(i64_to_decimal(i64::MIN), "-9223372036854775808");
    assert_eq!(i64_to_decimal(i64::MAX), "9223372036854775807");
    assert_eq!(usize_to_decimal(1234), "1234");
    assert_eq!(usize_to_decimal(0), "0");
}

#[test]
fn text_after_last_separator() {
    assert_eq!(text_after_last("a/b/c.png", '/'), "c.png");
    assert_eq!(text_after_last("file", '/'), "file");
    assert_eq!(text_after_last("dir/", '/'), "");
    assert_eq!(text_after_last("clip.MP4", '.'), "MP4");
}

#[test]
fn join_with_separator() {
    let parts = vec!["a".to_string(), "b".to_string(), "c".to_string()];
    assert_eq!(join(&parts, ", "), "a, b, c");
    assert_eq!(join(&Vec::new(), ", "), "");
    assert_eq!(join(&vec!["x".to_string()], "\n"), "x");
}

#[test]
fn prefix_and_search() {
    assert!(starts_with("http://x", "http"));
    assert!(!starts_with("htt", "http"));
    assert!(starts_with("abc", ""));
    let s: Vec<char> = "abcabc".chars().collect();
    let p: Vec<char> = "ca".chars().collect();
    assert_eq!(find_chars(&s, &p, 0), Some(2));
    assert_eq!(find_chars(&s, &p, 3), None);
}

#[test]
fn replace_every_occurrence() {
    assert_eq!(replace_text("aXbXc", "X", "YY"), "aYYbYYc");
    assert_eq!(replace_text("aaaa", "aa", "b"), "bb");
    assert_eq!(replace_text("none here", "X", "Y"), "none here");
    assert_eq!(replace_text("", "X", "Y"), "");
}
