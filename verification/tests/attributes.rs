//! Tests for the attribute decoder, the record constructors, the shared
//! priority classifier, and order independence of valid attribute sets.

use vk_dot_xml_parser::attrs::{classify_by_presence, decode_attrs, find_attr_value, has_attr_key};
use vk_dot_xml_parser::enums::{ApiConstant, EnumAlias};
use vk_dot_xml_parser::errors::ParseError;
use vk_dot_xml_parser::extensions::{Extension, ExtensionType};
use vk_dot_xml_parser::feature::RequiredEnumOffset;
use vk_dot_xml_parser::commands::Param;
use vk_dot_xml_parser::platforms::Platform;
use vk_dot_xml_parser::type_entry::{CppDefine, Structure};

#[test]
fn decoder_yields_pairs_in_order() {
    let pairs = decode_attrs(r#"name="x" protect="DEFINE_X""#);
    assert_eq!(pairs.len(), 2);
    assert_eq!(pairs[0].key, "name");
    assert_eq!(pairs[0].value, "x");
    assert_eq!(pairs[1].key, "protect");
    assert_eq!(pairs[1].value, "DEFINE_X");
}

#[test]
fn decoder_empty_text() {
    assert_eq!(decode_attrs("").len(), 0);
}

#[test]
fn decoder_lookups() {
    let pairs = decode_attrs(r#"a="1" b="2""#);
    assert!(has_attr_key(&pairs, "a"));
    assert!(!has_attr_key(&pairs, "c"));
    assert_eq!(find_attr_value(&pairs, "b").unwrap(), "2");
    assert!(find_attr_value(&pairs, "c").is_none());
}

#[test]
fn platform_from_attrs_builds_record() {
    let p = Platform::from_attrs(r#"name="x" protect="DEFINE_X" comment="c""#).unwrap();
    assert_eq!(p.name, "x");
    assert_eq!(p.protect, "DEFINE_X");
    assert_eq!(p.comment, "c");
}

#[test]
fn platform_attr_order_is_irrelevant() {
    let a = Platform::from_attrs(r#"name="x" protect="p" comment="c""#).unwrap();
    let b = Platform::from_attrs(r#"comment="c" name="x" protect="p""#).unwrap();
    let c = Platform::from_attrs(r#"protect="p" comment="c" name="x""#).unwrap();
    assert_eq!(a, b);
    assert_eq!(a, c);
}

#[test]
fn platform_missing_required_field() {
    let e = Platform::from_attrs(r#"name="x" comment="c""#).unwrap_err();
    match e {
        ParseError::MissingRequiredAttribute { name, .. } => assert_eq!(name, "protect"),
        other => panic!("wrong error: {other:?}"),
    }
}

#[test]
fn platform_empty_name_is_rejected() {
    let e = Platform::from_attrs(r#"name="" protect="p" comment="c""#).unwrap_err();
    assert!(matches!(e, ParseError::MissingRequiredAttribute { .. }));
}

#[test]
fn unknown_key_is_fatal() {
    let e = ApiConstant::from_attrs(r#"name="X" weirdattr="1""#).unwrap_err();
    match e {
        ParseError::UnexpectedAttribute { key, .. } => assert_eq!(key, "weirdattr"),
        other => panic!("wrong error: {other:?}"),
    }
}

#[test]
fn api_constant_fields() {
    let c = ApiConstant::from_attrs(r#"name="K" value="256" comment="c""#).unwrap();
    assert_eq!(c.name, "K");
    assert_eq!(c.value, "256");
    assert_eq!(c.ty, None);
    assert_eq!(c.comment.as_deref(), Some("c"));
}

#[test]
fn last_occurrence_of_a_key_wins() {
    let c = ApiConstant::from_attrs(r#"name="A" value="1" name="B""#).unwrap();
    assert_eq!(c.name, "B");
    assert_eq!(c.value, "1");
}

#[test]
fn enum_entry_priority_value_then_alias_then_bitpos() {
    let keys = vec!["value", "alias", "bitpos"];
    let both = decode_attrs(r#"name="E2" alias="E1" bitpos="3""#);
    assert_eq!(classify_by_presence(&both, &keys), Some(1));
    let value_wins = decode_attrs(r#"bitpos="3" alias="E1" value="7" name="E""#);
    assert_eq!(classify_by_presence(&value_wins, &keys), Some(0));
    let none = decode_attrs(r#"name="E""#);
    assert_eq!(classify_by_presence(&none, &keys), None);
}

#[test]
fn require_enum_priority_starts_at_offset() {
    let keys = vec!["offset", "bitpos", "alias", "value"];
    let pairs = decode_attrs(r#"value="1" bitpos="2" offset="3""#);
    assert_eq!(classify_by_presence(&pairs, &keys), Some(0));
}

#[test]
fn enum_alias_rejects_stray_bitpos() {
    let e = EnumAlias::from_attrs(r#"name="E2" alias="E1" bitpos="3""#).unwrap_err();
    match e {
        ParseError::UnexpectedAttribute { key, record_kind } => {
            assert_eq!(key, "bitpos");
            assert_eq!(record_kind, "EnumAlias");
        },
        other => panic!("wrong error: {other:?}"),
    }
}

#[test]
fn extension_type_values() {
    let x = Extension::from_attrs(r#"name="VK_KHR_x" type="device" supported="vulkan""#).unwrap();
    assert_eq!(x.ty, ExtensionType::Device);
    let y = Extension::from_attrs(r#"name="VK_KHR_y" supported="vulkan""#).unwrap();
    assert_eq!(y.ty, ExtensionType::Instance);
    let e = Extension::from_attrs(r#"name="VK_KHR_z" type="both""#).unwrap_err();
    assert!(matches!(e, ParseError::MalformedAttributeValue { .. }));
}

#[test]
fn numeric_attribute_values_parse_or_fail() {
    let r = RequiredEnumOffset::from_attrs(
        r#"name="E" extends="VkResult" extnumber="60" offset="2" dir="-""#,
    )
    .unwrap();
    assert_eq!(r.extension_number, 60);
    assert_eq!(r.offset, 2);
    assert!(r.is_negative);
    let e = RequiredEnumOffset::from_attrs(r#"name="E" offset="two""#).unwrap_err();
    match e {
        ParseError::MalformedAttributeValue { key, raw_value } => {
            assert_eq!(key, "offset");
            assert_eq!(raw_value, "two");
        },
        other => panic!("wrong error: {other:?}"),
    }
}

#[test]
fn boolean_flags_accept_only_true() {
    let s = Structure::from_attrs(r#"category="struct" name="S" returnedonly="true""#).unwrap();
    assert!(s.returned_only);
    let e = Structure::from_attrs(r#"category="struct" name="S" returnedonly="false""#)
        .unwrap_err();
    assert!(matches!(e, ParseError::MalformedAttributeValue { .. }));
}

#[test]
fn allowduplicate_accepts_false_as_no_op() {
    let s = Structure::from_attrs(r#"category="struct" name="S" allowduplicate="false""#).unwrap();
    assert!(!s.allow_duplicate);
    let t = Structure::from_attrs(r#"category="struct" name="S" allowduplicate="true""#).unwrap();
    assert!(t.allow_duplicate);
}

#[test]
fn category_value_is_checked() {
    let e = Structure::from_attrs(r#"category="union" name="S""#).unwrap_err();
    assert!(matches!(e, ParseError::MalformedAttributeValue { .. }));
}

#[test]
fn cpp_define_deprecated_is_tri_valued() {
    let t = CppDefine::from_attrs(r#"category="define" deprecated="true""#).unwrap();
    assert!(t.deprecated);
    let f = CppDefine::from_attrs(r#"category="define" deprecated="false""#).unwrap();
    assert!(!f.deprecated);
    let e = CppDefine::from_attrs(r#"category="define" deprecated="maybe""#).unwrap_err();
    assert!(matches!(e, ParseError::MalformedAttributeValue { .. }));
}

#[test]
fn param_noautovalidity_flag() {
    let p = Param::from_attrs(r#"noautovalidity="true" len="count""#).unwrap();
    assert!(p.no_auto_validity);
    assert_eq!(p.len.as_deref(), Some("count"));
    let e = Param::from_attrs(r#"noautovalidity="false""#).unwrap_err();
    assert!(matches!(e, ParseError::MalformedAttributeValue { .. }));
}
