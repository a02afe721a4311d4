use golden::text::trim;

#[test]
fn trimming_removes_unicode_whitespace_only() {
    assert_eq!(trim("\u{3000}\t x y \u{85}\u{2028}"), "x y");
    assert_eq!(trim("\u{200b}x\u{200b}"), "\u{200b}x\u{200b}");
    assert_eq!(trim("\u{a0}\u{1680}\u{2000}\u{200a}\u{202f}\u{205f}\u{2029}\r\n"), "");
}
