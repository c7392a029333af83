use cuttercookie::config::parse_json_pairs;
use cuttercookie::error::ErrorKind;

#[test]
fn test_parse_valid_json() {
    let json_str = r#"{
            "hello world": "greeting",
            "test": "number"
        }"#;

    let replacer = parse_json_pairs(json_str).unwrap();

    assert_eq!(replacer.replace("hello world"), "{{cookiecutter.greeting}}");
    assert_eq!(replacer.replace("test.123"), "{{cookiecutter.number}}.123");
    assert_eq!(replacer.replace("unmatched"), "unmatched");
}

#[test]
fn test_parse_empty_json() {
    let json_str = "{}";
    let replacer = parse_json_pairs(json_str).unwrap();

    assert_eq!(replacer.replace("test"), "test");
    assert_eq!(replacer.replace("hello world"), "hello world");
}

#[test]
fn test_parse_invalid_json() {
    let invalid_jsons = [
        r#"{"pattern": "replacement", invalid_json}"#,
        r#"["pattern", "replacement"]"#,
        r#"{"pattern": 42}"#,
        r#""just a string""#,
    ];

    for json in invalid_jsons {
        assert!(parse_json_pairs(json).is_err());
    }
}

#[test]
fn invalid_regex_pattern_is_config_error() {
    assert!(matches!(parse_json_pairs(r#"{"(unclosed": "x"}"#), Err(ErrorKind::Config)));
}
