use hermes::text::{parse_unsigned, u64_to_decimal, chars_of, trim_chars, contains_chars, to_lowercase, to_uppercase};

#[test]
fn decimal_roundtrip() {
    for n in [0u64, 7, 10, 255, 256, 4294967295, u64::MAX] {
        let s = u64_to_decimal(n);
        assert_eq!(s, n.to_string());
        assert_eq!(parse_unsigned(&chars_of(&s), u64::MAX), Some(n));
    }
}

#[test]
fn parse_unsigned_like_str_parse() {
    let p = |s: &str, max: u64| parse_unsigned(&chars_of(s), max);
    assert_eq!(p("8", 255), Some(8));
    assert_eq!(p("+8", 255), Some(8));
    assert_eq!(p("007", 255), Some(7));
    assert_eq!(p("256", 255), None);
    assert_eq!(p("", 255), None);
    assert_eq!(p("+", 255), None);
    assert_eq!(p("-1", 255), None);
    assert_eq!(p("1a", 255), None);
    assert_eq!(p("4294967296", 4294967295), None);
    assert_eq!(p("99999999999999999999999", 4294967295), None);
}

#[test]
fn trim_and_search() {
    let t: String = trim_chars(&chars_of("\u{3000} a b \n")).into_iter().collect();
    assert_eq!(t, "a b");
    assert!(contains_chars(&chars_of("hello"), &chars_of("ell")));
    assert!(contains_chars(&chars_of("hello"), &chars_of("")));
    assert!(!contains_chars(&chars_of("hello"), &chars_of("hex")));
    assert_eq!(to_lowercase("SHA256"), "sha256");
    assert_eq!(to_uppercase("abc=2"), "ABC=2");
}
