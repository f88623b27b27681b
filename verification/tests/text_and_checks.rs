use trade_server::checks::{password_satisfies, utf8_len_at_least};
use trade_server::clock::Timestamp;
use trade_server::text::{chars_of, contains_str, push_i32, trim_quotes};

#[test]
fn trim_quotes_strips_surrounding_quotes() {
    assert_eq!(trim_quotes("\"abc\""), "abc");
    assert_eq!(trim_quotes("\"\"abc\""), "abc");
    assert_eq!(trim_quotes("\"\"\""), "");
    assert_eq!(trim_quotes("a\"b"), "a\"b");
    assert_eq!(trim_quotes("12"), "12");
}

#[test]
fn contains_str_finds_substrings() {
    assert!(contains_str("{\"register\": {}}", "register"));
    assert!(!contains_str("log in", "login"));
    assert!(contains_str("anything", ""));
    assert!(!contains_str("ab", "abc"));
    assert!(contains_str("abc", "abc"));
}

#[test]
fn push_i32_writes_decimal() {
    let mut s = String::from("port ");
    push_i32(&mut s, 49153);
    assert_eq!(s, "port 49153");
    let mut s = String::new();
    push_i32(&mut s, -12);
    assert_eq!(s, "-12");
    let mut s = String::new();
    push_i32(&mut s, i32::MIN);
    assert_eq!(s, i32::MIN.to_string());
    let mut s = String::new();
    push_i32(&mut s, 0);
    assert_eq!(s, "0");
}

#[test]
fn chars_of_lists_characters() {
    assert_eq!(chars_of("aé1"), vec!['a', 'é', '1']);
}

#[test]
fn password_rule_examples() {
    assert!(password_satisfies("Password12"));
    assert!(!password_satisfies("Password1"));
    assert!(!password_satisfies("password123"));
    assert!(!password_satisfies("PASSWORDabc"));
    // 'ä' takes two bytes, so this password is ten bytes long.
    assert!(password_satisfies("Pässword1"));
    // `\d` matches Unicode decimal digits such as ARABIC-INDIC DIGIT THREE.
    assert!(password_satisfies("Passwordxx\u{663}"));
}

#[test]
fn utf8_length_counts_bytes() {
    assert!(utf8_len_at_least("é", 2));
    assert!(!utf8_len_at_least("é", 3));
    assert!(utf8_len_at_least("", 0));
    assert!(utf8_len_at_least("😀", 4));
}

#[test]
fn timestamps_order_by_seconds_then_nanos() {
    let a = Timestamp { secs: 10, nanos: 5 };
    let b = Timestamp { secs: 10, nanos: 6 };
    let c = Timestamp { secs: 11, nanos: 0 };
    assert!(a.is_before(&b));
    assert!(b.is_before(&c));
    assert!(!b.is_before(&a));
    assert!(!a.is_before(&a));
}
