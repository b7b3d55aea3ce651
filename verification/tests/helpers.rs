//! Tests for the small shared helpers: decimal parsing, entity decoding,
//! text normalization, and substring search.

use vk_dot_xml_parser::utils::{
    cleanup_declaration_text, normalize_newlines, parse_i32, parse_u32, revert_xml_encoding,
    str_contains, str_contains_char, str_eq,
};

#[test]
fn parse_u32_plain() {
    assert_eq!(parse_u32("0"), Some(0));
    assert_eq!(parse_u32("256"), Some(256));
    assert_eq!(parse_u32("4294967295"), Some(u32::MAX));
}

#[test]
fn parse_u32_plus_sign() {
    assert_eq!(parse_u32("+12"), Some(12));
    assert_eq!(parse_u32("+"), None);
}

#[test]
fn parse_u32_rejects() {
    assert_eq!(parse_u32(""), None);
    assert_eq!(parse_u32("4294967296"), None);
    assert_eq!(parse_u32("12a"), None);
    assert_eq!(parse_u32("-1"), None);
    assert_eq!(parse_u32(" 7"), None);
}

#[test]
fn parse_i32_signs() {
    assert_eq!(parse_i32("7"), Some(7));
    assert_eq!(parse_i32("-3"), Some(-3));
    assert_eq!(parse_i32("+3"), Some(3));
    assert_eq!(parse_i32("2147483647"), Some(i32::MAX));
    assert_eq!(parse_i32("-2147483648"), Some(i32::MIN));
}

#[test]
fn parse_i32_rejects() {
    assert_eq!(parse_i32("2147483648"), None);
    assert_eq!(parse_i32("-2147483649"), None);
    assert_eq!(parse_i32("--1"), None);
    assert_eq!(parse_i32(""), None);
}

#[test]
fn entities_decode() {
    assert_eq!(revert_xml_encoding("abc&lt;").unwrap(), "abc<");
    assert_eq!(revert_xml_encoding("1&gt;2").unwrap(), "1>2");
    assert_eq!(revert_xml_encoding("a&amp;b").unwrap(), "a&b");
    assert_eq!(revert_xml_encoding("plain").unwrap(), "plain");
}

#[test]
fn entities_fail_closed() {
    assert!(revert_xml_encoding("a&b").is_err());
    assert!(revert_xml_encoding("&l").is_err());
    assert!(revert_xml_encoding("tail&").is_err());
}

#[test]
fn newline_normalization() {
    assert_eq!(normalize_newlines("a\r\nb"), "a\nb");
    assert_eq!(normalize_newlines("a\nb\r"), "a\nb\r");
    assert_eq!(normalize_newlines(""), "");
}

#[test]
fn declaration_text_cleanup() {
    assert_eq!(cleanup_declaration_text("a  b"), "a b");
    assert_eq!(cleanup_declaration_text("a    b"), "a b");
    assert_eq!(cleanup_declaration_text("x\r\ny"), "xy");
    assert_eq!(cleanup_declaration_text("x\ny"), "xy");
}

#[test]
fn substring_search() {
    assert!(str_contains("VkAccessFlags2", "Flags"));
    assert!(str_contains("VkQueryPoolCreateFlagBits", "FlagBits"));
    assert!(!str_contains("VkInstance", "Flags"));
    assert!(str_contains("abc", ""));
    assert!(!str_contains("ab", "abc"));
}

#[test]
fn char_search_and_equality() {
    assert!(str_contains_char("a,b", ','));
    assert!(!str_contains_char("ab", ','));
    assert!(str_eq("same", "same"));
    assert!(!str_eq("same", "different"));
}
