use bruto_ide::metadata::{format_with_meta, metadata_path, parse_vrec, MetaTable, VarMeta};
use bruto_ide::set_mask::decode_set_bitmask;
use bruto_ide::variable::{
    classify_var_type, format_variable_value, parse_variable_line, real_literal, VarType,
};

fn ten_decimals(raw: &str) -> Option<String> {
    raw.parse::<f64>().ok().map(|f| format!("{:.10}", f))
}

fn parse(line: &str) -> Option<(String, String, String)> {
    let decimals = real_literal(line).and_then(|raw| ten_decimals(&raw));
    parse_variable_line(line, decimals.as_deref())
}

fn shown(type_str: &str, raw: &str) -> String {
    let decimals = ten_decimals(raw);
    format_variable_value(type_str, raw, decimals.as_deref())
}

#[test]
fn parse_integer_variable() {
    let r = parse("(long) x = 42");
    assert_eq!(r, Some(("x".into(), "42".into(), "long".into())));
}

#[test]
fn parse_string_variable() {
    let r = parse(r#"(char *) msg = 0x0000000100000acb "Hello""#);
    assert_eq!(r, Some(("msg".into(), "'Hello'".into(), "char *".into())));
}

#[test]
fn parse_double_variable() {
    let r = parse("(double) r = 3.1400000000000001");
    assert_eq!(r, Some(("r".into(), "3.14".into(), "double".into())));
}

#[test]
fn parse_pointer_variable() {
    let r = parse("(long *) p = 0x0000600001234000");
    assert_eq!(
        r,
        Some(("p".into(), "^0x0000600001234000".into(), "long *".into()))
    );
}

#[test]
fn parse_null_pointer() {
    let r = parse("(long *) p = 0x0000000000000000");
    assert_eq!(r, Some(("p".into(), "nil".into(), "long *".into())));
}

#[test]
fn classify_basic_types() {
    assert_eq!(classify_var_type("long"), VarType::Integer);
    assert_eq!(classify_var_type("double"), VarType::Real);
    assert_eq!(classify_var_type("bool"), VarType::Boolean);
    assert_eq!(classify_var_type("char"), VarType::Char);
    assert_eq!(classify_var_type("char *"), VarType::String);
    assert_eq!(classify_var_type("MyEnum"), VarType::Other);
}

#[test]
fn skip_internal_variable() {
    assert_eq!(parse("(void *) _capture = 0x0000000100000000"), None);
    assert_eq!(parse("(long) _end_bp = 0"), None);
}

#[test]
fn parse_non_variable_line() {
    assert_eq!(parse("Process 1234 stopped"), None);
    assert_eq!(parse("(lldb) frame variable"), None);
}

#[test]
fn variant_record_filters_to_active_case() {
    let meta = VarMeta::VariantRecord {
        tag_name: Some("kind".into()),
        fixed_fields: vec![("color".into(), "long".into())],
        cases: vec![
            (vec![0], vec![("radius".into(), "double".into())]),
            (
                vec![1],
                vec![
                    ("width".into(), "double".into()),
                    ("height".into(), "double".into()),
                ],
            ),
        ],
    };
    // Tag = 1: only color, kind, width, height should remain.
    let raw = "(color = 7, kind = 1, radius = 10, width = 10, height = 5)";
    let formatted = format_with_meta(&meta, raw).unwrap();
    assert!(formatted.contains("color=7"));
    assert!(formatted.contains("kind=1"));
    assert!(formatted.contains("width=10"));
    assert!(formatted.contains("height=5"));
    assert!(!formatted.contains("radius"));
}

#[test]
fn variant_record_unknown_tag_drops_all_variant_fields() {
    let meta = VarMeta::VariantRecord {
        tag_name: Some("kind".into()),
        fixed_fields: vec![("color".into(), "long".into())],
        cases: vec![
            (vec![0], vec![("radius".into(), "double".into())]),
            (vec![1], vec![("width".into(), "double".into())]),
        ],
    };
    let raw = "(color = 7, kind = 99, radius = 0, width = 0)";
    let formatted = format_with_meta(&meta, raw).unwrap();
    assert!(formatted.contains("color=7"));
    assert!(formatted.contains("kind=99"));
    assert!(!formatted.contains("radius"));
    assert!(!formatted.contains("width"));
}

#[test]
fn labels_and_editable_types() {
    assert_eq!(VarType::Integer.label(), "integer");
    assert_eq!(VarType::Real.label(), "real");
    assert_eq!(VarType::Boolean.label(), "boolean");
    assert_eq!(VarType::Char.label(), "char");
    assert_eq!(VarType::String.label(), "string");
    assert_eq!(VarType::Other.label(), "value");
    assert!(VarType::Char.is_editable());
    assert!(!VarType::String.is_editable());
    assert!(!VarType::Other.is_editable());
}

#[test]
fn classes_of_further_types() {
    assert_eq!(classify_var_type("  unsigned long long "), VarType::Integer);
    assert_eq!(classify_var_type("unsigned char"), VarType::Boolean);
    assert_eq!(classify_var_type("signed char"), VarType::Char);
    assert_eq!(classify_var_type("const char *"), VarType::String);
    assert_eq!(classify_var_type("float"), VarType::Real);
    assert_eq!(classify_var_type("Long"), VarType::Other);
}

#[test]
fn values_are_shown_by_type() {
    assert_eq!(shown("bool", "true"), "true");
    assert_eq!(shown("double", "2.5000000000"), "2.5");
    assert_eq!(shown("double", "3"), "3");
    assert_eq!(shown("double", "100.25"), "100.25");
    assert_eq!(shown("double", "x"), "x");
    assert_eq!(shown("char *", "0x0000000000000000"), "''");
    assert_eq!(shown("long", "-7"), "-7");
    assert_eq!(shown("bool", "'\\x01'"), "true");
    assert_eq!(shown("unsigned char", "0"), "false");
    assert_eq!(shown("char", "65 'A'"), "'A'");
    assert_eq!(shown("char", "65"), "'A'");
    assert_eq!(shown("char", "10"), "#10");
    assert_eq!(shown("long[3]", "([0] = 1, [1] = 4, [2] = 9)"), "(1, 4, 9)");
    assert_eq!(shown("long[4]", "([0] = 6, [1] = 0, [2] = 0, [3] = 0)"), "[1,2]");
}

#[test]
fn set_masks_become_literals() {
    assert_eq!(
        decode_set_bitmask("([0] = 0x000000000000000a, [1] = 0, [2] = 0, [3] = 0)"),
        Some("[1, 3]".to_string())
    );
    assert_eq!(
        decode_set_bitmask("([0] = 14, [1] = 0, [2] = 0, [3] = 0)"),
        Some("[1..3]".to_string())
    );
    assert_eq!(
        decode_set_bitmask("([0] = 0, [1] = 0, [2] = 0, [3] = 0)"),
        Some("[]".to_string())
    );
    assert_eq!(
        decode_set_bitmask("([0] = 0, [1] = 1, [2] = 0, [3] = 0)"),
        Some("[64]".to_string())
    );
    assert_eq!(decode_set_bitmask("not a mask"), None);
}

#[test]
fn metadata_formats_enums_and_sets() {
    let colors = VarMeta::Enum(vec!["red".into(), "green".into()]);
    assert_eq!(format_with_meta(&colors, " 1 "), Some("green (1)".to_string()));
    assert_eq!(format_with_meta(&colors, "2"), None);
    assert_eq!(format_with_meta(&colors, "-1"), None);
    assert_eq!(format_with_meta(&colors, "x"), None);
    assert_eq!(
        format_with_meta(&VarMeta::SetMask, "[1, 3]"),
        Some("[1, 3]".to_string())
    );
    assert_eq!(format_with_meta(&VarMeta::SetMask, "x"), None);
}

#[test]
fn metadata_lines_are_read() {
    let table = MetaTable::parse(
        "c|enum|red,green\ns|set\nbad line\nx|unknown|1\nc|enum|blue\nv|vrec|id=long;__tag=k;__case[0,1]=a=long",
    );
    assert!(matches!(table.get("s"), Some(VarMeta::SetMask)));
    assert!(table.get("x").is_none());
    assert!(table.get("bad line").is_none());
    match table.get("c") {
        Some(VarMeta::Enum(values)) => assert_eq!(values, &vec!["blue".to_string()]),
        _ => panic!("no enum"),
    }
    match table.get("v") {
        Some(VarMeta::VariantRecord { tag_name, fixed_fields, cases }) => {
            assert_eq!(tag_name.as_deref(), Some("k"));
            assert_eq!(fixed_fields, &vec![("id".to_string(), "long".to_string())]);
            assert_eq!(
                cases,
                &vec![(vec![0, 1], vec![("a".to_string(), "long".to_string())])]
            );
        }
        _ => panic!("no record"),
    }
    assert_eq!(metadata_path("/tmp/prog"), "/tmp/prog.bruto-meta");
}

#[test]
fn record_with_nested_values() {
    let meta = parse_vrec("id=long;__tag=k;__case[0]=a=long;__case[1]=b=long");
    assert_eq!(
        format_with_meta(&meta, "(id = (x = 1, y = 2), k = 1, a = 3, b = 4)"),
        Some("(id=(x = 1, y = 2), k=1, b=4)".to_string())
    );
}
