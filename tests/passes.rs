use reserde::bools::{convert_bool_variants, truth};
use reserde::object::{detach, Bytes, Object, Text};
use reserde::prepare;
use reserde::stringification;
use reserde::stringification::{stringify_value, stringify_with, Encoding};
use reserde::text::{bool_to_text, bytes_match_word, int_to_text, text_matches_word, uint_to_text};

fn text(s: &str) -> Object<'static> {
    Object::Text(Text::Owned(s.to_string()))
}

fn bytes(b: &[u8]) -> Object<'static> {
    Object::ByteArray(Bytes::Owned(b.to_vec()))
}

fn name(s: &str) -> Text<'static> {
    Text::Owned(s.to_string())
}

fn unit_variant(variant: Object<'static>) -> Object<'static> {
    Object::UnitVariant { name: name("Flag"), variant: Box::new(variant) }
}

fn all_owned(o: &Object) -> bool {
    let owned = |t: &Text| matches!(t, Text::Owned(_));
    match o {
        Object::Text(t) | Object::UnitStruct { name: t } | Object::DualVariantKey { name: t, .. } => {
            owned(t)
        }
        Object::ByteArray(b) => matches!(b, Bytes::Owned(_)),
        Object::Optional(Some(x)) => all_owned(x),
        Object::UnitVariant { name, variant } => owned(name) && all_owned(variant),
        Object::NewtypeStruct { name, value } => owned(name) && all_owned(value),
        Object::NewtypeVariant { name, variant, value } => {
            owned(name) && all_owned(variant) && all_owned(value)
        }
        Object::Sequence(v) | Object::Tuple(v) => v.iter().all(all_owned),
        Object::TupleStruct { name, fields } => owned(name) && fields.iter().all(all_owned),
        Object::TupleVariant { name, variant, fields }
        | Object::StructVariant { name, variant, fields } => {
            owned(name) && all_owned(variant) && all_owned(fields)
        }
        Object::Mapping(m) => m.iter().all(|(k, v)| all_owned(k) && all_owned(v)),
        Object::Struct { name, fields } => {
            owned(name)
                && fields.iter().all(|(k, v)| owned(k) && v.as_ref().map_or(true, all_owned))
        }
        Object::FieldMap(m) => {
            m.iter().all(|(k, v)| all_owned(k) && v.as_ref().map_or(true, all_owned))
        }
        _ => true,
    }
}

#[test]
fn detach_copies_borrowed_leaves() {
    let buffer = String::from("keyvalue");
    let raw: Vec<u8> = vec![0xff, 0x00, 0x41];
    let borrowed = Object::Struct {
        name: Text::Borrowed(&buffer[0..3]),
        fields: vec![
            (Text::Borrowed(&buffer[0..3]), Some(Object::Text(Text::Borrowed(&buffer[3..])))),
            (Text::Borrowed(&buffer[3..]), None),
            (name("raw"), Some(Object::ByteArray(Bytes::Borrowed(&raw)))),
        ],
    };
    let owned = detach(&borrowed);
    drop(borrowed);
    drop(buffer);
    let expected = Object::Struct {
        name: name("key"),
        fields: vec![
            (name("key"), Some(text("value"))),
            (name("value"), None),
            (name("raw"), Some(bytes(&[0xff, 0x00, 0x41]))),
        ],
    };
    assert_eq!(owned, expected);
    assert!(all_owned(&owned));
}

#[test]
fn detach_keeps_every_variant_and_order() {
    let source = String::from("abc");
    let o = Object::Mapping(vec![
        (Object::U128(u128::MAX), Object::Sequence(vec![Object::I8(-1), Object::Unit, Object::Char('z')])),
        (
            Object::Text(Text::Borrowed(&source)),
            Object::TupleVariant {
                name: Text::Borrowed(&source[..1]),
                variant: Box::new(Object::DualVariantKey { index: 3, name: Text::Borrowed(&source[1..]) }),
                fields: Box::new(Object::Tuple(vec![Object::Bool(true), Object::Optional(None)])),
            },
        ),
        (Object::F64 { bits: 0x4004000000000000, text: "2.5".to_string() }, Object::FieldMap(vec![(text("k"), None)])),
    ]);
    let d = detach(&o);
    let expected = Object::Mapping(vec![
        (Object::U128(u128::MAX), Object::Sequence(vec![Object::I8(-1), Object::Unit, Object::Char('z')])),
        (
            text("abc"),
            Object::TupleVariant {
                name: name("a"),
                variant: Box::new(Object::DualVariantKey { index: 3, name: name("bc") }),
                fields: Box::new(Object::Tuple(vec![Object::Bool(true), Object::Optional(None)])),
            },
        ),
        (Object::F64 { bits: 0x4004000000000000, text: "2.5".to_string() }, Object::FieldMap(vec![(text("k"), None)])),
    ]);
    assert_eq!(d, expected);
    assert!(all_owned(&d));
}

#[test]
fn stringify_leaves_text_tree_unchanged() {
    let build = || Object::Mapping(vec![
        (text("a"), Object::Sequence(vec![Object::I32(1), Object::Bool(false)])),
        (text("b"), unit_variant(text("Off"))),
        (
            text("c"),
            Object::Struct { name: name("S"), fields: vec![(name("x"), Some(Object::U64(9))), (name("y"), None)] },
        ),
    ]);
    let mut o = build();
    stringification::stringify(&mut o, Encoding::Utf8);
    assert_eq!(o, build());
    stringify_with(&mut o, &[Encoding::Utf8, Encoding::Utf8]);
    assert_eq!(o, build());
}

#[test]
fn stringify_twice_same_as_once() {
    let build = || Object::FieldMap(vec![
        (Object::Char('k'), Some(bytes(b"caf\xc3\xa9"))),
        (bytes(&[0xc3, 0x28]), Some(bytes(&[0xfe]))),
        (Object::Optional(Some(Box::new(Object::I16(-300)))), None),
    ]);
    let mut once = build();
    stringify_with(&mut once, &[Encoding::Utf8]);
    let mut twice = build();
    stringify_with(&mut twice, &[Encoding::Utf8]);
    stringify_with(&mut twice, &[Encoding::Utf8]);
    assert_eq!(once, twice);
    let expected = Object::FieldMap(vec![
        (text("k"), Some(text("café"))),
        (bytes(&[0xc3, 0x28]), Some(bytes(&[0xfe]))),
        (Object::Optional(Some(Box::new(text("-300")))), None),
    ]);
    assert_eq!(once, expected);
}

#[test]
fn bool_variant_true_any_case() {
    let mut o = unit_variant(text("True"));
    convert_bool_variants(&mut o);
    assert_eq!(o, Object::Bool(true));
}

#[test]
fn bool_variant_false_upper_case() {
    let mut o = unit_variant(text("FALSE"));
    convert_bool_variants(&mut o);
    assert_eq!(o, Object::Bool(false));
}

#[test]
fn bool_variant_truthy_unchanged() {
    let mut o = unit_variant(text("truthy"));
    convert_bool_variants(&mut o);
    assert_eq!(o, unit_variant(text("truthy")));
}

#[test]
fn bool_variant_byte_string_identifier() {
    let mut o = Object::Sequence(vec![unit_variant(bytes(b"tRuE")), unit_variant(bytes(b"no"))]);
    convert_bool_variants(&mut o);
    assert_eq!(o, Object::Sequence(vec![Object::Bool(true), unit_variant(bytes(b"no"))]));
}

#[test]
fn bool_variant_inside_option_and_map() {
    let mut o = Object::Optional(Some(Box::new(Object::Mapping(vec![(
        unit_variant(text("false")),
        Object::NewtypeStruct { name: name("N"), value: Box::new(unit_variant(text("TRUE"))) },
    )]))));
    convert_bool_variants(&mut o);
    let expected = Object::Optional(Some(Box::new(Object::Mapping(vec![(
        Object::Bool(false),
        Object::NewtypeStruct { name: name("N"), value: Box::new(Object::Bool(true)) },
    )]))));
    assert_eq!(o, expected);
}

#[test]
fn bool_variant_dual_key_identifier_unchanged() {
    let dual = || Object::DualVariantKey { index: 1, name: name("true") };
    let mut o = unit_variant(dual());
    convert_bool_variants(&mut o);
    assert_eq!(o, unit_variant(dual()));
}

#[test]
fn mapping_keys_become_text() {
    let mut o = Object::Mapping(vec![(Object::I32(42), Object::U8(7)), (text("name"), Object::I64(-1))]);
    stringify_with(&mut o, &[Encoding::Utf8]);
    let expected = Object::Mapping(vec![(text("42"), Object::U8(7)), (text("name"), Object::I64(-1))]);
    assert_eq!(o, expected);
}

#[test]
fn end_to_end_record_variant() {
    let input = || Object::StructVariant {
        name: name("Status"),
        variant: Box::new(Object::DualVariantKey { index: 1, name: name("Active") }),
        fields: Box::new(Object::Struct {
            name: name("Active"),
            fields: vec![(name("enabled"), Some(unit_variant(text("true"))))],
        }),
    };
    let mut o = input();
    convert_bool_variants(&mut o);
    let coerced = Object::StructVariant {
        name: name("Status"),
        variant: Box::new(Object::DualVariantKey { index: 1, name: name("Active") }),
        fields: Box::new(Object::Struct {
            name: name("Active"),
            fields: vec![(name("enabled"), Some(Object::Bool(true)))],
        }),
    };
    assert_eq!(o, coerced);
    stringify_with(&mut o, &[Encoding::Utf8]);
    assert_eq!(o, coerced);

    let mut p = input();
    prepare(&mut p, &[Encoding::Utf8], true);
    assert_eq!(p, coerced);
}

#[test]
fn byte_string_invalid_utf8_unchanged() {
    let mut o = bytes(&[0x66, 0x80, 0x6f]);
    stringify_with(&mut o, &[Encoding::Utf8]);
    assert_eq!(o, bytes(&[0x66, 0x80, 0x6f]));
}

#[test]
fn byte_string_valid_utf8_becomes_text() {
    let mut o = bytes("größe ✓".as_bytes());
    stringify_with(&mut o, &[Encoding::Utf8]);
    assert_eq!(o, text("größe ✓"));
}

#[test]
fn value_positions_keep_scalars() {
    let mut o = Object::Sequence(vec![Object::I32(5), Object::Char('c'), Object::Bool(true), bytes(b"hi")]);
    stringification::stringify(&mut o, Encoding::Utf8);
    assert_eq!(o, Object::Sequence(vec![Object::I32(5), Object::Char('c'), Object::Bool(true), text("hi")]));
}

#[test]
fn key_positions_render_scalars() {
    let mut o = Object::Mapping(vec![
        (Object::Bool(false), Object::Unit),
        (Object::Char('x'), Object::Unit),
        (Object::I128(i128::MIN), Object::Unit),
        (Object::U128(u128::MAX), Object::Unit),
        (Object::U8(0), Object::Unit),
        (Object::F32 { bits: 0x3fc00000, text: "1.5".to_string() }, Object::Unit),
        (Object::DualVariantKey { index: 2, name: name("Two") }, Object::Unit),
        (Object::Sequence(vec![Object::U8(1)]), Object::Unit),
    ]);
    stringification::stringify(&mut o, Encoding::Utf8);
    let expected = Object::Mapping(vec![
        (text("false"), Object::Unit),
        (text("x"), Object::Unit),
        (text("-170141183460469231731687303715884105728"), Object::Unit),
        (text("340282366920938463463374607431768211455"), Object::Unit),
        (text("0"), Object::Unit),
        (text("1.5"), Object::Unit),
        (Object::DualVariantKey { index: 2, name: name("Two") }, Object::Unit),
        (Object::Sequence(vec![Object::U8(1)]), Object::Unit),
    ]);
    assert_eq!(o, expected);
}

#[test]
fn tag_identifiers_render_scalars() {
    let mut o = Object::NewtypeVariant {
        name: name("E"),
        variant: Box::new(Object::U32(3)),
        value: Box::new(Object::TupleVariant {
            name: name("F"),
            variant: Box::new(bytes(b"Tup")),
            fields: Box::new(Object::Tuple(vec![bytes(b"x"), Object::U16(2)])),
        }),
    };
    stringification::stringify(&mut o, Encoding::Utf8);
    let expected = Object::NewtypeVariant {
        name: name("E"),
        variant: Box::new(text("3")),
        value: Box::new(Object::TupleVariant {
            name: name("F"),
            variant: Box::new(text("Tup")),
            fields: Box::new(Object::Tuple(vec![text("x"), Object::U16(2)])),
        }),
    };
    assert_eq!(o, expected);
}

#[test]
fn stringify_value_renders_and_recurses_into_option() {
    let mut o = Object::Optional(Some(Box::new(Object::I64(-9000))));
    stringify_value(&mut o, Encoding::Utf8);
    assert_eq!(o, Object::Optional(Some(Box::new(text("-9000")))));
    let mut n = Object::Optional(None);
    stringify_value(&mut n, Encoding::Utf8);
    assert_eq!(n, Object::Optional(None));
}

#[test]
fn prepare_without_passes_keeps_tree() {
    let mut o = unit_variant(text("true"));
    prepare(&mut o, &[], false);
    assert_eq!(o, unit_variant(text("true")));
}

#[test]
fn text_rendering_exact() {
    assert_eq!(int_to_text(0), "0");
    assert_eq!(int_to_text(-42), "-42");
    assert_eq!(int_to_text(1234567890123), "1234567890123");
    assert_eq!(int_to_text(i128::MIN), i128::MIN.to_string());
    assert_eq!(uint_to_text(u128::MAX), u128::MAX.to_string());
    assert_eq!(uint_to_text(10), "10");
    assert_eq!(bool_to_text(true), "true");
    assert_eq!(bool_to_text(false), "false");
}

#[test]
fn utf8_decoding_checks_well_formedness() {
    let cases: Vec<(Vec<u8>, Option<&str>)> = vec![
        (b"plain".to_vec(), Some("plain")),
        (vec![0xe2, 0x82, 0xac], Some("€")),
        (vec![0xed, 0xa0, 0x80], None),
        (vec![0xc0, 0x80], None),
        (vec![], Some("")),
    ];
    for (input, expected) in cases {
        let mut o = Object::ByteArray(Bytes::Owned(input.clone()));
        stringify_value(&mut o, Encoding::Utf8);
        match expected {
            Some(t) => assert_eq!(o, text(t)),
            None => assert_eq!(o, bytes(&input)),
        }
    }
}

#[test]
fn char_key_becomes_one_character_text() {
    let mut o = Object::Char('é');
    stringify_value(&mut o, Encoding::Utf8);
    assert_eq!(o, text("é"));
}

#[test]
fn word_matching_ignores_ascii_case_only() {
    assert!(text_matches_word("TrUe", "true"));
    assert!(!text_matches_word("tru", "true"));
    assert!(!text_matches_word("trüe", "true"));
    assert!(bytes_match_word(b"FALSE", b"false"));
    assert!(!bytes_match_word(b"FALSY", b"false"));
    assert_eq!(truth(&text("fAlSe")), Some(false));
    assert_eq!(truth(&Object::Bool(true)), None);
}
