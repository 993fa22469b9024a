use localtools::raider::helpers::{format_thousands, lsp_placeholder, tail_bytes};

fn lsp_placeholder_for(lsp_enabled: bool) -> String {
    lsp_placeholder(lsp_enabled).to_string()
}

#[test]
fn format_thousands_inserts_separators_at_every_three_digits() {
    assert_eq!(format_thousands(0), "0");
    assert_eq!(format_thousands(7), "7");
    assert_eq!(format_thousands(999), "999");
    assert_eq!(format_thousands(1_000), "1,000");
    assert_eq!(format_thousands(16_590), "16,590");
    assert_eq!(format_thousands(1_234_567), "1,234,567");
}

#[test]
fn format_thousands_largest_number() {
    assert_eq!(format_thousands(u64::MAX), "18,446,744,073,709,551,615");
}

#[test]
fn tail_bytes_keeps_short_text_intact() {
    assert_eq!(tail_bytes("hello", 100), "hello");
    assert_eq!(tail_bytes("", 100), "");
}

#[test]
fn tail_bytes_trims_to_tail_with_ellipsis_prefix() {
    let input: String = "a".repeat(100_000);
    let out = tail_bytes(&input, 30_000);
    assert!(out.len() <= 30_000 + 5);
    assert!(out.starts_with("...\n"));
    assert!(out.ends_with(&"a".repeat(100)));
}

#[test]
fn tail_bytes_does_not_split_utf8_codepoint() {
    let input: String = "😀".repeat(100);
    let out = tail_bytes(&input, 199);
    assert!(out.starts_with("...\n"));
    let body = out.trim_start_matches("...\n");
    assert!(body.chars().all(|c| c == '😀'));
}

#[test]
fn tail_bytes_exact_cut() {
    assert_eq!(tail_bytes("abcdef", 6), "abcdef");
    assert_eq!(tail_bytes("abcdef", 2), "...\nef");
    assert_eq!(tail_bytes("é", 1), "...\n");
}

#[test]
fn lsp_placeholder_says_disabled_when_config_lsp_is_off() {
    let placeholder = lsp_placeholder_for(false);
    assert_eq!(placeholder, "LSPs are disabled");
}

#[test]
fn lsp_placeholder_says_will_activate_when_config_lsp_is_on() {
    let placeholder = lsp_placeholder_for(true);
    assert_eq!(placeholder, "LSPs will activate as files are read");
}
