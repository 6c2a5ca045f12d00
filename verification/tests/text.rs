use sheldrive::text::{
    chars_of, lines_chars, push_decimal, push_hex, push_signed_decimal, trim_chars,
};

fn s(v: &[char]) -> String {
    v.iter().collect()
}

#[test]
fn lines_follow_std() {
    let text = "a\r\nb\n\nc\r";
    let ls: Vec<String> = lines_chars(&chars_of(text)).iter().map(|l| s(l)).collect();
    let expected: Vec<String> = text.lines().map(|l| l.to_string()).collect();
    assert_eq!(ls, expected);
    assert!(lines_chars(&chars_of("")).is_empty());
    assert_eq!(lines_chars(&chars_of("x\n")).len(), 1);
}

#[test]
fn trim_matches_std() {
    for t in ["  a b \t", "\u{3000}x\u{2029}", "", "   ", "\u{85}y"] {
        assert_eq!(s(&trim_chars(&chars_of(t))), t.trim());
    }
}

#[test]
fn numbers_format_like_std() {
    let mut out = String::new();
    push_decimal(&mut out, 0);
    push_decimal(&mut out, 1234567890123);
    push_hex(&mut out, 0xdeadbeef);
    push_signed_decimal(&mut out, i64::MIN);
    assert_eq!(out, format!("0{}{:x}{}", 1234567890123u64, 0xdeadbeefu64, i64::MIN));
}
