use ezsql::attr::AttrToken;
use ezsql::conf_macro::{parse_attr, supported_data_type};
use ezsql::text::stripped;

fn ident(s: &str) -> AttrToken {
    AttrToken::Ident(s.to_string())
}

fn lit(s: &str) -> AttrToken {
    AttrToken::Literal(s.to_string())
}

#[test]
fn conf_attribute_arguments() {
    let toks = vec![
        ident("path"),
        AttrToken::Punct('='),
        lit("\"/etc/app.yaml\""),
        AttrToken::Punct(','),
        ident("prefix"),
        AttrToken::Punct('='),
        lit("\"server.http\""),
        AttrToken::Punct(','),
        ident("data_type"),
        AttrToken::Punct('='),
        lit("\"yaml\""),
    ];
    let a = parse_attr(&toks).unwrap();
    assert_eq!(a.path.as_deref(), Some("/etc/app.yaml"));
    assert_eq!(a.prefix.as_deref(), Some("server.http"));
    assert_eq!(a.data_type.as_deref(), Some("YAML"));
    assert!(supported_data_type(&a.data_type));
}

#[test]
fn conf_attribute_defaults_and_errors() {
    let a = parse_attr(&vec![]).unwrap();
    assert!(a.path.is_none() && a.prefix.is_none() && a.data_type.is_none());
    assert!(supported_data_type(&a.data_type));
    let e = parse_attr(&vec![ident("file"), AttrToken::Punct('='), lit("\"x\"")]).err().unwrap();
    assert_eq!(e, "file");
    let a = parse_attr(&vec![ident("data_type"), AttrToken::Punct('='), lit("\"json\"")]).unwrap();
    assert_eq!(a.data_type.as_deref(), Some("JSON"));
    assert!(!supported_data_type(&a.data_type));
    let a = parse_attr(&vec![ident("data_type"), AttrToken::Punct('='), lit("\"straße\"")]).unwrap();
    assert_eq!(a.data_type.as_deref(), Some("STRASSE"));
}

#[test]
fn quotes_come_off_both_ends() {
    assert_eq!(stripped("\"\"a\"b\"", '"'), "a\"b");
    assert_eq!(stripped("\"\"\"", '"'), "");
    assert_eq!(stripped("plain", '"'), "plain");
}
