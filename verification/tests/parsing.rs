use rusttex::links::LinkTable;
use rusttex::number::parse_i32_radix;
use rusttex::text::{decimal_bytes, lowercase, utf8_string};

#[test]
fn parse_decimal_numbers() {
    assert_eq!(parse_i32_radix(b"12", 10), Some(12));
    assert_eq!(parse_i32_radix(b"+7", 10), Some(7));
    assert_eq!(parse_i32_radix(b"-42", 10), Some(-42));
    assert_eq!(parse_i32_radix(b"2147483647", 10), Some(i32::MAX));
    assert_eq!(parse_i32_radix(b"-2147483648", 10), Some(i32::MIN));
    assert_eq!(parse_i32_radix(b"2147483648", 10), None);
    assert_eq!(parse_i32_radix(b"99999999999999999999", 10), None);
}

#[test]
fn parse_rejects_malformed_numbers() {
    assert_eq!(parse_i32_radix(b"", 10), None);
    assert_eq!(parse_i32_radix(b"-", 10), None);
    assert_eq!(parse_i32_radix(b"+", 10), None);
    assert_eq!(parse_i32_radix(b" 1", 10), None);
    assert_eq!(parse_i32_radix(b"1a", 10), None);
    assert_eq!(parse_i32_radix(b"--1", 10), None);
}

#[test]
fn parse_hexadecimal_numbers() {
    assert_eq!(parse_i32_radix(b"10000", 16), Some(0x10000));
    assert_eq!(parse_i32_radix(b"1fF", 16), Some(0x1FF));
    assert_eq!(parse_i32_radix(b"7fffffff", 16), Some(i32::MAX));
    assert_eq!(parse_i32_radix(b"-80000000", 16), Some(i32::MIN));
    assert_eq!(parse_i32_radix(b"80000000", 16), None);
    assert_eq!(parse_i32_radix(b"g", 16), None);
}

#[test]
fn parse_agrees_with_std() {
    for s in ["0", "17", "-3", "+0", "ff", "FFFF", "x", "", "-", "123456789012", "-7fffffff"] {
        assert_eq!(parse_i32_radix(s.as_bytes(), 10), i32::from_str_radix(s, 10).ok(), "{}", s);
        assert_eq!(parse_i32_radix(s.as_bytes(), 16), i32::from_str_radix(s, 16).ok(), "{}", s);
    }
}

#[test]
fn decimal_digits() {
    assert_eq!(decimal_bytes(0), b"0".to_vec());
    assert_eq!(decimal_bytes(37), b"37".to_vec());
    assert_eq!(decimal_bytes(107), b"107".to_vec());
    assert_eq!(decimal_bytes(255), b"255".to_vec());
}

#[test]
fn utf8_decoding() {
    assert_eq!(utf8_string(b"abc"), Some("abc".to_string()));
    assert_eq!(utf8_string("é".as_bytes()), Some("é".to_string()));
    assert_eq!(utf8_string(&[0xFF, 0x41]), None);
    assert_eq!(utf8_string(&[0xC3]), None);
}

#[test]
fn lowercase_text() {
    assert_eq!(lowercase("HeLLo"), "hello");
    assert_eq!(lowercase("BACK"), "back");
    assert_eq!(lowercase("ÀB"), "àb");
}

#[test]
fn link_table_insert_get_replace() {
    let mut t = LinkTable::new();
    assert_eq!(t.len(), 0);
    assert_eq!(t.get(&"next".to_string()), None);
    t.insert("next".to_string(), "p2.tti".to_string());
    t.insert("prev".to_string(), "p0.tti".to_string());
    assert_eq!(t.len(), 2);
    assert_eq!(t.get(&"next".to_string()), Some(&"p2.tti".to_string()));
    t.insert("next".to_string(), "p3.tti".to_string());
    assert_eq!(t.len(), 2);
    assert_eq!(t.get(&"next".to_string()), Some(&"p3.tti".to_string()));
    assert_eq!(t.get(&"prev".to_string()), Some(&"p0.tti".to_string()));
    assert_eq!(t.get(&"Next".to_string()), None);
}
