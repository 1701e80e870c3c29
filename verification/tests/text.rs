use site_discovery_flea::text::{append_decimal, starts_with};

#[test]
fn append_decimal_writes_after_what_is_there() {
    let mut out = String::from("port ");
    append_decimal(&mut out, 443);
    assert_eq!(out, "port 443");
    append_decimal(&mut out, 0);
    assert_eq!(out, "port 4430");
    append_decimal(&mut out, -12);
    assert_eq!(out, "port 4430-12");
}

#[test]
fn append_decimal_agrees_with_the_standard_formatting() {
    let values: Vec<i32> = vec![0, 1, 9, 10, 11, 99, 100, 101, 1000, 65535, 100000, i32::MAX, -1, -9, -10, -100, i32::MIN, i32::MIN + 1];
    for value in values {
        let mut out = String::new();
        append_decimal(&mut out, value);
        assert_eq!(out, format!("{}", value));
    }
}

#[test]
fn starts_with_compares_leading_characters() {
    assert!(starts_with("www.example.com", "www."));
    assert!(starts_with("www.", "www."));
    assert!(starts_with("anything", ""));
    assert!(starts_with("", ""));
    assert!(!starts_with("", "www."));
    assert!(!starts_with("www", "www."));
    assert!(!starts_with("ww.w.example.com", "www."));
    assert!(!starts_with("Www.example.com", "www."));
    assert!(!starts_with("a.www.example.com", "www."));
    assert!(starts_with("éa", "é"));
    assert!(!starts_with("ea", "é"));
}
