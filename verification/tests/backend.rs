use katgen::analysis::{analyze_content, Kat};
use katgen::kinds::T;
use katgen::rust::{
    assemble, bytes_for, bytes_to_array, declaration, generate, raw_value, struct_fields,
    typed_fields, typed_value, untyped_fields, RustTy,
};
use katgen::segment::{parse_content, Content, ContentItem};
use katgen::value::Value;
use katgen::{generate_code, CodeGen};

fn generated(data: &str) -> String {
    let content = parse_content(data).unwrap();
    let kat = analyze_content(&content);
    generate(&kat)
}

#[test]
fn rust_types_are_written_as_in_rust() {
    assert_eq!(RustTy::U8.as_string(), "u8");
    assert_eq!(RustTy::U16.as_string(), "u16");
    assert_eq!(RustTy::U32.as_string(), "u32");
    assert_eq!(RustTy::U64.as_string(), "u64");
    assert_eq!(RustTy::U128.as_string(), "u128");
    assert_eq!(RustTy::String.as_string(), "String");
    assert_eq!(RustTy::Bytes.as_string(), "&'static [u8]");
}

#[test]
fn integers_get_the_smallest_type_that_holds_them() {
    let cases = [
        (0, RustTy::U8),
        (8, RustTy::U8),
        (9, RustTy::U16),
        (16, RustTy::U16),
        (17, RustTy::U32),
        (32, RustTy::U32),
        (33, RustTy::U64),
        (64, RustTy::U64),
        (65, RustTy::U128),
        (128, RustTy::U128),
        (129, RustTy::Bytes),
        (usize::MAX, RustTy::Bytes),
    ];
    for (bits, ty) in cases {
        assert_eq!(RustTy::from(T::Integer(bits)), ty, "{} bits", bits);
    }
    assert_eq!(RustTy::from(T::String), RustTy::String);
    assert_eq!(RustTy::from(T::Bytes(0)), RustTy::Bytes);
    assert_eq!(RustTy::from(T::Bytes(4)), RustTy::Bytes);
}

#[test]
fn bytes_become_an_array_literal() {
    assert_eq!(bytes_to_array(&vec![]), "&[]");
    assert_eq!(bytes_to_array(&vec![0]), "&[0x00]");
    assert_eq!(bytes_to_array(&vec![0x00, 0x01]), "&[0x00, 0x01]");
    assert_eq!(bytes_to_array(&vec![0xde, 0xad, 0xbe, 0xef]), "&[0xde, 0xad, 0xbe, 0xef]");
    assert_eq!(bytes_to_array(&vec![0x0f, 0xf0, 0xff]), "&[0x0f, 0xf0, 0xff]");
}

#[test]
fn byte_width_rounds_up() {
    assert_eq!(bytes_for(0), 0);
    assert_eq!(bytes_for(1), 1);
    assert_eq!(bytes_for(8), 1);
    assert_eq!(bytes_for(9), 2);
    assert_eq!(bytes_for(16), 2);
    assert_eq!(bytes_for(17), 3);
    assert_eq!(bytes_for(usize::MAX), usize::MAX / 8 + 1);
}

#[test]
fn raw_values_are_bytes_or_quoted() {
    assert_eq!(raw_value(&Value::from_str("hello")), "\"hello\"");
    assert_eq!(raw_value(&Value::from_str("beef")), "&[0xbe, 0xef]");
    assert_eq!(raw_value(&Value::from_str("")), "&[]");
}

#[test]
fn integers_are_padded_to_the_width_of_the_schema() {
    assert_eq!(typed_value(T::Integer(9), &Value::from_str("1")), "&[0x00, 0x01]");
    assert_eq!(typed_value(T::Integer(9), &Value::from_str("300")), "&[0x01, 0x2c]");
    assert_eq!(typed_value(T::Integer(3), &Value::from_str("5")), "&[0x05]");
    assert_eq!(typed_value(T::Integer(32), &Value::from_str("0")), "&[0x00, 0x00, 0x00, 0x00]");
    assert_eq!(typed_value(T::Integer(0), &Value::from_str("0")), "&[]");
    assert_eq!(typed_value(T::Integer(8), &Value::from_str("0x1A")), "&[0x1a]");
    assert_eq!(typed_value(T::Integer(16), &Value::from_str("0x1A")), "&[0x00, 0x1a]");
    assert_eq!(typed_value(T::Integer(5), &Value::from_str("0b101")), "&[0x05]");
}

#[test]
fn an_integer_wider_than_the_schema_is_not_cut() {
    assert_eq!(typed_value(T::Integer(8), &Value::from_str("300")), "&[0x01, 0x2c]");
}

#[test]
fn what_is_no_integer_is_written_as_it_was_read() {
    assert_eq!(typed_value(T::Integer(8), &Value::from_str("hello")), "\"hello\"");
    assert_eq!(typed_value(T::Integer(8), &Value::from_str("beef")), "&[0xbe, 0xef]");
    assert_eq!(typed_value(T::String, &Value::from_str("hello")), "\"hello\"");
    assert_eq!(typed_value(T::String, &Value::from_str("12")), "&[0x12]");
    assert_eq!(typed_value(T::Bytes(2), &Value::from_str("beef")), "&[0xbe, 0xef]");
    assert_eq!(typed_value(T::Bytes(2), &Value::from_str("xyz")), "\"xyz\"");
}

#[test]
fn the_declaration_is_a_public_struct_with_the_fields_of_the_schema() {
    let schema = Some(vec![
        ("a".to_string(), T::Integer(9)),
        ("b".to_string(), T::Integer(3)),
        ("c".to_string(), T::Bytes(4)),
        ("d".to_string(), T::String),
        ("e".to_string(), T::Integer(300)),
    ]);
    assert_eq!(
        declaration(&schema),
        "#[derive(Debug, Clone)]\npub struct KV {\n    a: u16,\n    b: u8,\n    c: &'static [u8],\n    d: String,\n    e: &'static [u8],\n}"
    );
}

#[test]
fn the_declaration_of_an_empty_schema_has_no_fields() {
    assert_eq!(declaration(&Some(vec![])), "#[derive(Debug, Clone)]\npub struct KV;");
    assert_eq!(declaration(&None), "");
}

#[test]
fn end_to_end() {
    let expected = "\
#[derive(Debug, Clone)]
pub struct KV {
    a: u16,
    b: u8,
}
pub const KATS : [KV; 2] = [
// KAT 0
KV {
    a: &[0x00, 0x01],
    b: &[0x02],
},
// KAT 1
KV {
    a: &[0x01, 0x2c],
    b: &[0x05],
},
];
";
    assert_eq!(generated("a=1\nb=2\n\na=300\nb=5\n"), expected);
}

#[test]
fn text_lines_become_comments_in_their_place() {
    let expected = "\
#[derive(Debug, Clone)]
pub struct KV {
    Key: &'static [u8],
    Msg: String,
}
pub const KATS : [KV; 2] = [
// # vectors
// KAT 0
KV {
    Key: &[0x00, 0xff],
    Msg: \"hello\",
},
// between
// KAT 1
KV {
    Key: &[0x01],
    Msg: \"bye\",
},
// end
];
";
    let data = "# vectors\nKey = 00ff\nMsg = hello\nbetween\nKey = 01\nMsg = bye\nend\n";
    assert_eq!(generated(data), expected);
}

#[test]
fn without_records_the_output_is_an_empty_collection() {
    assert_eq!(generated("only text\n"), "\npub const KATS : [KV; 0] = [\n// only text\n];\n");
    assert_eq!(generated(""), "\npub const KATS : [KV; 0] = [\n];\n");
}

#[test]
fn record_fields_follow_the_order_of_the_schema() {
    let schema = vec![("a".to_string(), T::Integer(9)), ("b".to_string(), T::Bytes(1))];
    let fields = vec![
        ("b".to_string(), Value::from_str("ff")),
        ("extra".to_string(), Value::from_str("1")),
        ("a".to_string(), Value::from_str("7")),
    ];
    assert_eq!(typed_fields(&schema, &fields), "    a: &[0x00, 0x07],\n    b: &[0xff],\n");
    let partial = vec![("b".to_string(), Value::from_str("ff"))];
    assert_eq!(typed_fields(&schema, &partial), "    b: &[0xff],\n");
}

#[test]
fn without_a_schema_every_field_is_echoed_with_a_placeholder() {
    let fields =
        vec![("b".to_string(), Value::from_str("ff")), ("a".to_string(), Value::from_str("7"))];
    assert_eq!(untyped_fields(&fields), "b = v;\na = v;\n");
    let content = Content(vec![
        (0, ContentItem::Text("t".to_string())),
        (1, ContentItem::KVS(fields)),
    ]);
    let kat = Kat { content: &content, same_structure: None, diagnostics: vec![] };
    assert_eq!(generate(&kat), "\npub const KATS : [KV; 1] = [\n// t\nb = v;\na = v;\n];\n");
}

#[test]
fn records_that_did_not_unify_are_still_written() {
    let expected = "\
#[derive(Debug, Clone)]
pub struct KV {
    a: u8,
}
pub const KATS : [KV; 3] = [
// KAT 0
KV {
    a: &[0x01],
},
// KAT 1
KV {
    a: &[0xde, 0xad, 0xbe, 0xef],
},
// KAT 2
KV {
},
];
";
    assert_eq!(generated("a=1\n\na=deadbeef\n\nb=2\n"), expected);
}

#[test]
fn only_rust_has_a_backend() {
    let content = parse_content("a=1\n").unwrap();
    let kat = analyze_content(&content);
    assert_eq!(generate_code(&kat, CodeGen::Rust), Some(generate(&kat)));
    assert_eq!(generate_code(&kat, CodeGen::Haskell), None);
    assert_eq!(generate_code(&kat, CodeGen::C), None);
}

#[test]
fn struct_fields_carry_the_written_types() {
    let schema = vec![("a".to_string(), T::Integer(9)), ("s".to_string(), T::String)];
    assert_eq!(
        struct_fields(&schema),
        vec![("a".to_string(), "u16".to_string()), ("s".to_string(), "String".to_string())]
    );
}

#[test]
fn the_collection_is_assembled_under_any_declaration() {
    let content = parse_content("note\na=7\n").unwrap();
    let kat = analyze_content(&content);
    assert_eq!(
        assemble("struct KV;".to_string(), &kat),
        "struct KV;\npub const KATS : [KV; 1] = [\n// note\n// KAT 0\nKV {\n    a: &[0x07],\n},\n];\n"
    );
}

#[test]
fn records_are_numbered_from_zero_past_nine() {
    let mut data = String::new();
    for _ in 0..12 {
        data.push_str("a=1\n\n");
    }
    let text = generated(&data);
    assert!(text.contains("pub const KATS : [KV; 12] = [\n"));
    assert!(text.contains("// KAT 0\n"));
    assert!(text.contains("// KAT 9\n"));
    assert!(text.contains("// KAT 10\n"));
    assert!(text.contains("// KAT 11\n"));
    assert!(!text.contains("// KAT 12\n"));
}
