use bruto_ide::value_editor::{
    entered_value, format_setter_expr, max_length_for, set_value_title, setter_initial_text,
    setter_text, type_filter_validator,
};
use bruto_ide::variable::VarType;
use turbo_vision::views::validator::Validator;

fn setter(ty: VarType, raw: &str) -> Option<String> {
    let number = setter_text(raw).parse::<f64>().ok().map(|f| format!("{f}"));
    format_setter_expr(ty, raw, number.as_deref())
}

#[test]
fn integer_setter_round_trips() {
    assert_eq!(setter(VarType::Integer, "42"), Some("42".into()));
    assert_eq!(setter(VarType::Integer, "-7"), Some("-7".into()));
    assert_eq!(setter(VarType::Integer, "abc"), None);
}

#[test]
fn real_setter_round_trips() {
    assert_eq!(setter(VarType::Real, "3.14").unwrap(), "3.14");
    assert!(setter(VarType::Real, "x").is_none());
}

#[test]
fn boolean_setter_normalises() {
    assert_eq!(setter(VarType::Boolean, "TRUE"), Some("true".into()));
    assert_eq!(setter(VarType::Boolean, "0"), Some("false".into()));
    assert_eq!(setter(VarType::Boolean, "yes"), None);
}

#[test]
fn char_setter_quotes_and_rejects_multiple() {
    assert_eq!(setter(VarType::Char, "A"), Some("'A'".into()));
    assert_eq!(setter(VarType::Char, "'"), Some("'\\''".into()));
    assert_eq!(setter(VarType::Char, "AB"), None);
    assert_eq!(setter(VarType::Char, ""), None);
}

#[test]
fn unsupported_types_return_none() {
    assert!(setter(VarType::String, "hi").is_none());
    assert!(setter(VarType::Other, "1").is_none());
}

#[test]
fn setters_trim_what_was_typed() {
    assert_eq!(setter_text("  a b "), "a b");
    assert_eq!(setter(VarType::Integer, " 007 "), Some("7".into()));
    assert_eq!(setter(VarType::Integer, "9223372036854775808"), None);
    assert_eq!(
        setter(VarType::Integer, "-9223372036854775808"),
        Some("-9223372036854775808".into())
    );
    assert_eq!(setter(VarType::Real, " 1e3 "), Some("1000".into()));
    assert_eq!(setter(VarType::Boolean, " 1 "), Some("true".into()));
    assert_eq!(setter(VarType::Char, "\\"), Some("'\\\\'".into()));
    assert_eq!(setter(VarType::Char, "\u{e9}"), Some("'\u{e9}'".into()));
}

#[test]
fn integers_are_set_as_they_are_shown() {
    for n in [0i64, 5, -12, i64::MAX, i64::MIN] {
        let text = n.to_string();
        assert_eq!(setter(VarType::Integer, &text), Some(text.clone()));
    }
}

#[test]
fn booleans_settle() {
    for raw in ["True", "FALSE", "1", "0"] {
        let expr = setter(VarType::Boolean, raw).unwrap();
        assert_eq!(setter(VarType::Boolean, &expr), Some(expr.clone()));
    }
}

#[test]
fn characters_open_without_quotes() {
    assert_eq!(setter_initial_text(VarType::Char, "'A'"), "A");
    assert_eq!(setter_initial_text(VarType::Char, "''"), "");
    assert_eq!(setter_initial_text(VarType::Integer, "'A'"), "'A'");
    assert_eq!(
        setter(VarType::Char, &setter_initial_text(VarType::Char, "'A'")),
        Some("'A'".into())
    );
}

#[test]
fn lengths_by_type() {
    assert_eq!(max_length_for(VarType::Char), 1);
    assert_eq!(max_length_for(VarType::Boolean), 5);
    assert_eq!(max_length_for(VarType::Integer), 32);
    assert_eq!(max_length_for(VarType::Real), 64);
    assert_eq!(max_length_for(VarType::String), 256);
    assert_eq!(max_length_for(VarType::Other), 256);
}

#[test]
fn filters_by_type() {
    let integer = type_filter_validator(VarType::Integer).unwrap();
    assert!(integer.is_valid("-12"));
    assert!(!integer.is_valid("1.5"));
    let real = type_filter_validator(VarType::Real).unwrap();
    assert!(real.is_valid("-1.5e+3"));
    assert!(!real.is_valid("1,5"));
    let boolean = type_filter_validator(VarType::Boolean).unwrap();
    assert!(boolean.is_valid("true"));
    assert!(boolean.is_valid("false"));
    assert!(!boolean.is_valid("no"));
    assert!(type_filter_validator(VarType::Char).is_none());
    assert!(type_filter_validator(VarType::String).is_none());
    assert!(type_filter_validator(VarType::Other).is_none());
}

#[test]
fn dialog_title_and_result() {
    assert_eq!(set_value_title("count", VarType::Integer), "Set count (integer)");
    assert_eq!(entered_value(10, "5".to_string()), Some("5".to_string()));
    assert_eq!(entered_value(10, String::new()), None);
    assert_eq!(entered_value(11, "5".to_string()), None);
}
