use syn::Lit;
use white_label::{BrandError, LitKind, Value, WLBrand, WLInput, WLMatch};

fn lit(v: &Value) -> Lit {
    syn::parse_str::<Lit>(&v.text).unwrap()
}

#[test]
fn test_parse_brand_named() {
    let brand = WLBrand::parse("\"Northwind\"").unwrap();

    match brand {
        WLBrand::Named(s) => assert_eq!(s, "Northwind"),
        WLBrand::Wildcard => panic!("Expected Named, got Wildcard"),
    }
}

#[test]
fn test_parse_brand_wildcard() {
    let brand = WLBrand::parse("_").unwrap();

    match brand {
        WLBrand::Wildcard => (),
        WLBrand::Named(_) => panic!("Expected Wildcard, got Named"),
    }
}

#[test]
fn test_parse_literal_string() {
    let wl_match = WLMatch::parse("\"Northwind\" => \"https://northwind.example.com/\"").unwrap();

    match wl_match.brand {
        WLBrand::Named(s) => assert_eq!(s, "Northwind"),
        WLBrand::Wildcard => panic!("Expected Named brand"),
    }

    match lit(&wl_match.literal) {
        Lit::Str(s) => assert_eq!(s.value(), "https://northwind.example.com/"),
        _ => panic!("Expected string literal"),
    }
}

#[test]
fn test_parse_literal_bool() {
    let wl_match = WLMatch::parse("\"Development\" => true").unwrap();

    match lit(&wl_match.literal) {
        Lit::Bool(b) => assert!(b.value),
        _ => panic!("Expected bool literal"),
    }
}

#[test]
fn test_parse_literal_int() {
    let wl_match = WLMatch::parse("\"Northwind\" => 8080").unwrap();

    match lit(&wl_match.literal) {
        Lit::Int(i) => assert_eq!(i.base10_parse::<u32>().unwrap(), 8080),
        _ => panic!("Expected int literal"),
    }
}

#[test]
fn test_parse_literal_float() {
    let wl_match = WLMatch::parse("\"Northwind\" => 1.5").unwrap();

    match lit(&wl_match.literal) {
        Lit::Float(f) => assert_eq!(f.base10_parse::<f64>().unwrap(), 1.5),
        _ => panic!("Expected float literal"),
    }
}

#[test]
fn test_parse_literal_char() {
    let wl_match = WLMatch::parse("\"Northwind\" => 'N'").unwrap();

    match lit(&wl_match.literal) {
        Lit::Char(c) => assert_eq!(c.value(), 'N'),
        _ => panic!("Expected char literal"),
    }
}

#[test]
fn test_parse_single_match() {
    let wl_input = WLInput::parse("_ => \"always\"").unwrap();

    assert_eq!(wl_input.matches.len(), 1);
}

#[test]
fn test_parse_multiple_matches() {
    let wl_input = WLInput::parse(
        "\"Northwind\" => \"value1\",\n\"Contoso\" => \"value2\",\n_ => \"default\"",
    )
    .unwrap();

    assert_eq!(wl_input.matches.len(), 3);

    match &wl_input.matches[0].brand {
        WLBrand::Named(s) => assert_eq!(s, "Northwind"),
        _ => panic!("Expected Named brand"),
    }

    match &wl_input.matches[2].brand {
        WLBrand::Wildcard => (),
        _ => panic!("Expected Wildcard"),
    }
}

#[test]
fn test_parse_with_trailing_comma() {
    let wl_input =
        WLInput::parse("\"Northwind\" => \"value1\",\n\"Contoso\" => \"value2\",\n").unwrap();

    assert_eq!(wl_input.matches.len(), 2);
}

#[test]
fn test_parse_without_trailing_comma() {
    let wl_input =
        WLInput::parse("\"Northwind\" => \"value1\",\n\"Contoso\" => \"value2\"\n").unwrap();

    assert_eq!(wl_input.matches.len(), 2);
}

fn names(input: &WLInput) -> Vec<Option<String>> {
    input
        .matches
        .iter()
        .map(|m| match &m.brand {
            WLBrand::Named(s) => Some(s.clone()),
            WLBrand::Wildcard => None,
        })
        .collect()
}

fn literal_texts(input: &WLInput) -> Vec<String> {
    input.matches.iter().map(|m| m.literal.text.clone()).collect()
}

#[test]
fn trailing_separator_gives_the_same_list() {
    let with = WLInput::parse("\"Northwind\" => \"value1\", \"Contoso\" => 2, _ => 'x',").unwrap();
    let without = WLInput::parse("\"Northwind\" => \"value1\", \"Contoso\" => 2, _ => 'x'").unwrap();

    assert_eq!(names(&with), names(&without));
    assert_eq!(literal_texts(&with), literal_texts(&without));
    assert_eq!(
        names(&with),
        vec![Some("Northwind".to_string()), Some("Contoso".to_string()), None]
    );
    assert_eq!(literal_texts(&with), vec!["\"value1\"", "2", "'x'"]);
}

#[test]
fn empty_text_is_an_empty_list() {
    assert_eq!(WLInput::parse("").unwrap().matches.len(), 0);
    assert_eq!(WLInput::parse("  \n ").unwrap().matches.len(), 0);
}

#[test]
fn pattern_string_is_unescaped() {
    match WLBrand::parse("\"North\\x77ind\\\"\"").unwrap() {
        WLBrand::Named(s) => assert_eq!(s, "Northwind\""),
        WLBrand::Wildcard => panic!("Expected Named brand"),
    }
}

#[test]
fn literal_text_is_kept_as_written() {
    let m = WLMatch::parse("\"A\" => 0x1F_u16").unwrap();
    assert_eq!(m.literal.text, "0x1F_u16");
    assert_eq!(m.literal.kind, LitKind::Int);
    match lit(&m.literal) {
        Lit::Int(i) => assert_eq!(i.base10_parse::<u16>().unwrap(), 31),
        _ => panic!("Expected int literal"),
    }
}

#[test]
fn negative_literal_is_read() {
    let m = WLMatch::parse("\"A\" => -42").unwrap();
    assert_eq!(m.literal.kind, LitKind::Int);
    match lit(&m.literal) {
        Lit::Int(i) => assert_eq!(i.base10_parse::<i32>().unwrap(), -42),
        _ => panic!("Expected int literal"),
    }
}

fn syntax_error_at(text: &str) -> Option<usize> {
    match WLInput::parse(text) {
        Err(BrandError::Syntax(p)) => Some(p),
        _ => None,
    }
}

#[test]
fn missing_separator_between_clauses_is_an_error() {
    assert_eq!(syntax_error_at("\"A\" => 1 \"B\" => 2"), Some(9));
}

#[test]
fn doubled_separator_is_an_error() {
    assert_eq!(syntax_error_at("\"A\" => 1,, \"B\" => 2"), Some(9));
}

#[test]
fn missing_arrow_is_an_error() {
    assert_eq!(syntax_error_at("\"A\" 1"), Some(4));
    assert_eq!(syntax_error_at("\"A\" = 1"), Some(4));
    assert_eq!(syntax_error_at("\"A\""), Some(3));
}

#[test]
fn pattern_must_be_a_string_or_wildcard() {
    assert_eq!(syntax_error_at("Northwind => 1"), Some(0));
    assert_eq!(syntax_error_at("'N' => 1"), Some(0));
    assert_eq!(syntax_error_at("42 => 1"), Some(0));
    assert_eq!(syntax_error_at(", \"A\" => 1"), Some(0));
}

#[test]
fn value_must_be_a_literal() {
    assert_eq!(syntax_error_at("\"A\" => _"), Some(7));
    assert_eq!(syntax_error_at("\"A\" => foo"), Some(7));
    assert_eq!(syntax_error_at("\"A\" =>"), Some(6));
    assert_eq!(syntax_error_at("\"A\" => \"open"), Some(7));
}

#[test]
fn stray_character_is_an_error() {
    assert_eq!(syntax_error_at("\"A\" => 1; \"B\" => 2"), Some(8));
}

#[test]
fn single_item_parsers_reject_leftovers() {
    assert!(matches!(WLBrand::parse("_ _"), Err(BrandError::Syntax(2))));
    assert!(matches!(WLMatch::parse("\"A\" => 1,"), Err(BrandError::Syntax(8))));
}

#[test]
fn literal_kinds_are_told_apart() {
    let kind = |text: &str| WLMatch::parse(text).unwrap().literal.kind;
    assert_eq!(kind("\"A\" => \"s\""), LitKind::Str);
    assert_eq!(kind("\"A\" => 7"), LitKind::Int);
    assert_eq!(kind("\"A\" => 7.5"), LitKind::Float);
    assert_eq!(kind("\"A\" => false"), LitKind::Bool);
    assert_eq!(kind("\"A\" => 'c'"), LitKind::Char);
}

#[test]
fn raw_string_patterns_are_read() {
    match WLBrand::parse("r\"Northwind\"").unwrap() {
        WLBrand::Named(s) => assert_eq!(s, "Northwind"),
        WLBrand::Wildcard => panic!("Expected Named brand"),
    }
    match WLBrand::parse("r#\"North\"wind\"#").unwrap() {
        WLBrand::Named(s) => assert_eq!(s, "North\"wind"),
        WLBrand::Wildcard => panic!("Expected Named brand"),
    }
}

#[test]
fn prefixed_literals_are_values() {
    let value = |text: &str| WLMatch::parse(text).unwrap().literal;
    let v = value("\"A\" => b\"bytes\"");
    assert_eq!((v.kind, v.text.as_str()), (LitKind::ByteStr, "b\"bytes\""));
    let v = value("\"A\" => b'x'");
    assert_eq!((v.kind, v.text.as_str()), (LitKind::Byte, "b'x'"));
    let v = value("\"A\" => c\"text\"");
    assert_eq!((v.kind, v.text.as_str()), (LitKind::CStr, "c\"text\""));
    let v = value("\"A\" => br##\"a\"#b\"##");
    assert_eq!((v.kind, v.text.as_str()), (LitKind::ByteStr, "br##\"a\"#b\"##"));
    let v = value("\"A\" => r\"raw\\n\"");
    assert_eq!((v.kind, v.text.as_str()), (LitKind::Str, "r\"raw\\n\""));
}

#[test]
fn minus_apart_from_its_number_is_read() {
    let m = WLMatch::parse("\"A\" => - 1").unwrap();
    assert_eq!((m.literal.kind, m.literal.text.as_str()), (LitKind::Int, "- 1"));
    match lit(&m.literal) {
        Lit::Int(i) => assert_eq!(i.base10_parse::<i32>().unwrap(), -1),
        _ => panic!("Expected int literal"),
    }
}

#[test]
fn unclosed_raw_string_is_an_error() {
    assert_eq!(syntax_error_at("\"A\" => r#\"open\""), Some(7));
    assert_eq!(syntax_error_at("r\"A => 1"), Some(0));
}
