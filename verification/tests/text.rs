use terminal_mcp::text::{
    chars_of, decimal_len, join_strings, prefix_within_budget, push_signed_decimal, push_zero_padded, split_char,
    str_eq, string_of, strip_prefix, trim, u64_to_string, utf8_width,
};

#[test]
fn decimal_rendering() {
    assert_eq!(u64_to_string(0), "0");
    assert_eq!(u64_to_string(18446744073709551615), "18446744073709551615");
    assert_eq!(decimal_len(0), 1);
    assert_eq!(decimal_len(999), 3);
    assert_eq!(decimal_len(1000), 4);
    let mut s = String::new();
    push_zero_padded(&mut s, 7, 3);
    push_zero_padded(&mut s, 12345, 3);
    assert_eq!(s, "00712345");
    let mut t = String::new();
    push_signed_decimal(&mut t, -42);
    push_signed_decimal(&mut t, i64::MIN);
    assert_eq!(t, "-42-9223372036854775808");
}

#[test]
fn byte_budget_prefix() {
    assert_eq!(prefix_within_budget("hello", 3), "hel");
    assert_eq!(prefix_within_budget("hello", 10), "hello");
    assert_eq!(prefix_within_budget("aé", 2), "a");
    assert_eq!(prefix_within_budget("€€", 5), "€");
    assert_eq!(utf8_width('a'), 1);
    assert_eq!(utf8_width('é'), 2);
    assert_eq!(utf8_width('€'), 3);
    assert_eq!(utf8_width('😀'), 4);
}

#[test]
fn trimming_and_splitting() {
    assert_eq!(trim("  a b \n"), "a b");
    assert_eq!(trim(" \t "), "");
    assert_eq!(split_char("ls,,echo", ','), vec!["ls", "", "echo"]);
    assert_eq!(split_char("", ','), vec![""]);
    assert_eq!(strip_prefix("script_greet", "script_"), Some("greet".to_string()));
    assert_eq!(strip_prefix("terminal_execute", "script_"), None);
    assert_eq!(join_strings(&vec!["a".to_string(), "b".to_string()], ", "), "a, b");
    assert_eq!(join_strings(&vec![], ", "), "");
}

#[test]
fn char_helpers() {
    let v = chars_of("héllo");
    assert_eq!(v.len(), 5);
    assert_eq!(string_of(&v, 1, 3), "él");
    assert!(str_eq("abc", "abc"));
    assert!(!str_eq("abc", "abd"));
}
