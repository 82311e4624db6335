use projets2020::text::{append_decimal, cat2, cat3, from_chars, owned, str_eq, u64_to_decimal, usize_to_decimal};

#[test]
fn decimal_numbers() {
    assert_eq!(usize_to_decimal(0), "0");
    assert_eq!(usize_to_decimal(1234), "1234");
    assert_eq!(u64_to_decimal(u64::MAX), "18446744073709551615");
    let mut s = "n=".to_string();
    append_decimal(&mut s, 42);
    assert_eq!(s, "n=42");
}

#[test]
fn joining_and_comparing() {
    assert_eq!(owned("x"), "x");
    assert_eq!(cat2("ab", "cd"), "abcd");
    assert_eq!(cat3("a", "", "c"), "ac");
    assert!(str_eq("é", "é"));
    assert!(!str_eq("a", "b"));
    assert_eq!(from_chars(&vec!['o', 'k']), "ok");
}
