use havi::qa_format::{format_string, needs_quoting};
use havi::qa_parse::{ParseError, Qa};
use havi::qa_value::QaValue;

fn s(text: &str) -> QaValue {
    QaValue::String(text.to_string())
}

#[test]
fn test_empty() {
    let qa = Qa::parse("{}").unwrap();
    assert!(qa.is_empty());
}

#[test]
fn test_simple_pair() {
    let qa = Qa::parse("{page:5}").unwrap();
    assert_eq!(qa.get("page"), Some(&QaValue::String("5".to_string())));
}

#[test]
fn test_fragment() {
    let qa = Qa::parse("{#:section}").unwrap();
    assert_eq!(qa.fragment(), Some("section"));
    assert_eq!(qa.get("#"), Some(&QaValue::String("section".to_string())));
}

#[test]
fn test_array() {
    let qa = Qa::parse("{tags:[a,b,c]}").unwrap();
    let expected = QaValue::Array(vec![
        QaValue::String("a".to_string()),
        QaValue::String("b".to_string()),
        QaValue::String("c".to_string()),
    ]);
    assert_eq!(qa.get("tags"), Some(&expected));
}

#[test]
fn test_nested_object() {
    let qa = Qa::parse("{opts:{dark:1}}").unwrap();
    let inner = vec![("dark".to_string(), QaValue::String("1".to_string()))];
    let expected = QaValue::Object(inner);
    assert_eq!(qa.get("opts"), Some(&expected));
}

#[test]
fn test_key_only() {
    let qa = Qa::parse("{draft,preview}").unwrap();
    assert_eq!(qa.get("draft"), Some(&QaValue::String(String::new())));
    assert_eq!(qa.get("preview"), Some(&QaValue::String(String::new())));
}

#[test]
fn test_duplicate_keys_last_wins() {
    let qa = Qa::parse("{a:1,a:2}").unwrap();
    assert_eq!(qa.get("a"), Some(&QaValue::String("2".to_string())));
}

#[test]
fn test_quoted_string() {
    let qa = Qa::parse("{key:\"hello world\"}").unwrap();
    assert_eq!(qa.get("key"), Some(&QaValue::String("hello world".to_string())));
}

#[test]
fn test_single_quoted_string() {
    let qa = Qa::parse("{key:'hello world'}").unwrap();
    assert_eq!(qa.get("key"), Some(&QaValue::String("hello world".to_string())));
}

#[test]
fn test_whitespace() {
    let qa = Qa::parse("{ a : b }").unwrap();
    assert_eq!(qa.get("a"), Some(&QaValue::String("b".to_string())));
}

#[test]
fn test_whitespace_in_quotes_preserved() {
    let qa = Qa::parse("{tags:\"   test\"}").unwrap();
    assert_eq!(qa.get("tags"), Some(&QaValue::String("   test".to_string())));
}

#[test]
fn test_escaped_chars() {
    let qa = Qa::parse("{key:a\\:b}").unwrap();
    assert_eq!(qa.get("key"), Some(&QaValue::String("a:b".to_string())));
}

#[test]
fn test_escaped_in_quoted() {
    let qa = Qa::parse("{key:\"a\\\"b\"}").unwrap();
    assert_eq!(qa.get("key"), Some(&QaValue::String("a\"b".to_string())));
}

#[test]
fn test_multiple_pairs() {
    let qa = Qa::parse("{page:5,sort:date}").unwrap();
    assert_eq!(qa.get("page"), Some(&QaValue::String("5".to_string())));
    assert_eq!(qa.get("sort"), Some(&QaValue::String("date".to_string())));
}

#[test]
fn test_round_trip() {
    let inputs = ["{page:5}", "{tags:[a,b,c]}", "{opts:{dark:1}}", "{}", "{#:section}"];

    for input in inputs {
        let qa = Qa::parse(input).unwrap();
        let serialized = qa.to_string();
        let reparsed = Qa::parse(&serialized).unwrap();
        assert_eq!(qa, reparsed, "Round-trip failed for: {}", input);
    }
}

#[test]
fn test_round_trip_with_quotes() {
    let qa = Qa::parse("{key:\"hello world\"}").unwrap();
    let serialized = qa.to_string();
    let reparsed = Qa::parse(&serialized).unwrap();
    assert_eq!(qa, reparsed);
}

#[test]
fn test_empty_array() {
    let qa = Qa::parse("{items:[]}").unwrap();
    assert_eq!(qa.get("items"), Some(&QaValue::Array(vec![])));
}

#[test]
fn test_nested_array() {
    let qa = Qa::parse("{matrix:[[1,2],[3,4]]}").unwrap();
    let expected = QaValue::Array(vec![
        QaValue::Array(vec![QaValue::String("1".to_string()), QaValue::String("2".to_string())]),
        QaValue::Array(vec![QaValue::String("3".to_string()), QaValue::String("4".to_string())]),
    ]);
    assert_eq!(qa.get("matrix"), Some(&expected));
}

#[test]
fn test_complex_example() {
    let qa = Qa::parse("{#:intro,lang:en}").unwrap();
    assert_eq!(qa.fragment(), Some("intro"));
    assert_eq!(qa.get("lang"), Some(&QaValue::String("en".to_string())));
}

#[test]
fn test_error_unterminated_string() {
    let result = Qa::parse("{key:\"unterminated}");
    assert_eq!(result, Err(ParseError::UnterminatedString));
}

#[test]
fn test_error_missing_close_brace() {
    let result = Qa::parse("{key:value");
    assert_eq!(result, Err(ParseError::ExpectedCloseBrace));
}

#[test]
fn test_error_missing_open_brace() {
    let result = Qa::parse("key:value}");
    assert_eq!(result, Err(ParseError::ExpectedOpenBrace));
}

#[test]
fn test_iter() {
    let qa = Qa::parse("{a:1,b:2}").unwrap();
    let pairs: Vec<_> = qa.iter().collect();
    assert_eq!(pairs.len(), 2);
}

#[test]
fn test_bare_colon_in_value() {
    let qa = Qa::parse("{src:hppr:127.0.0.1:8000//u/group}").unwrap();
    assert_eq!(qa.get("src"), Some(&QaValue::String("hppr:127.0.0.1:8000//u/group".to_string())));
}

#[test]
fn test_bare_colon_in_value_with_comma() {
    let qa = Qa::parse("{a:x:y,b:z}").unwrap();
    assert_eq!(qa.get("a"), Some(&QaValue::String("x:y".to_string())));
    assert_eq!(qa.get("b"), Some(&QaValue::String("z".to_string())));
}

#[test]
fn test_bare_colon_in_array_item() {
    let qa = Qa::parse("{urls:[hppr:localhost:4777//u/a,hppr:localhost:4778//u/b]}").unwrap();
    let expected = QaValue::Array(vec![
        QaValue::String("hppr:localhost:4777//u/a".to_string()),
        QaValue::String("hppr:localhost:4778//u/b".to_string()),
    ]);
    assert_eq!(qa.get("urls"), Some(&expected));
}

#[test]
fn test_bare_colon_round_trip() {
    let qa = Qa::parse("{src:hppr:127.0.0.1:8000//u/group}").unwrap();
    let serialized = qa.to_string();
    let reparsed = Qa::parse(&serialized).unwrap();
    assert_eq!(qa, reparsed);
}

#[test]
fn test_colon_still_separates_key_value() {
    let qa = Qa::parse("{key:value}").unwrap();
    assert_eq!(qa.get("key"), Some(&QaValue::String("value".to_string())));
}

#[test]
fn test_nested_object_with_colon_values() {
    let qa = Qa::parse("{opts:{endpoint:hppr:localhost:4777}}").unwrap();
    let inner = vec![("endpoint".to_string(), QaValue::String("hppr:localhost:4777".to_string()))];
    assert_eq!(qa.get("opts"), Some(&QaValue::Object(inner)));
}

#[test]
fn serializes_entries_in_insertion_order() {
    let qa = Qa::parse("{b:2,a:1,#:top}").unwrap();
    assert_eq!(qa.to_string(), "{b:2,a:1,#:top}");
}

#[test]
fn duplicate_key_keeps_first_position() {
    let qa = Qa::parse("{a:1,b:2,a:3}").unwrap();
    let keys: Vec<&str> = qa.iter().map(|(k, _)| k.as_str()).collect();
    assert_eq!(keys, vec!["a", "b"]);
    assert_eq!(qa.get("a"), Some(&s("3")));
    assert_eq!(qa.len(), 2);
}

#[test]
fn key_only_entries_serialize_without_colon() {
    let qa = Qa::parse("{draft,page:5}").unwrap();
    assert_eq!(qa.to_string(), "{draft,page:5}");
}

#[test]
fn special_characters_are_quoted_and_escaped() {
    assert_eq!(format_string("plain"), "plain");
    assert_eq!(format_string(""), "\"\"");
    assert_eq!(format_string("a b"), "\"a b\"");
    assert_eq!(format_string("say \"hi\""), "\"say \\\"hi\\\"\"");
    assert!(needs_quoting("x:y"));
    assert!(needs_quoting("[x]"));
    assert!(!needs_quoting("hello"));
}

#[test]
fn nested_values_round_trip() {
    let qa = Qa::parse("{m:[[1,\"a b\"],{k:v,e}],q:'x,y'}").unwrap();
    let reparsed = Qa::parse(&qa.to_string()).unwrap();
    assert_eq!(qa, reparsed);
}

#[test]
fn value_accessors_tell_kinds_apart() {
    let qa = Qa::parse("{a:x,b:[y],c:{d:z}}").unwrap();
    assert_eq!(qa.get("a").unwrap().as_str(), Some("x"));
    assert_eq!(qa.get("b").unwrap().as_array(), Some(&vec![s("y")]));
    assert_eq!(qa.get("c").unwrap().as_object(), Some(&vec![("d".to_string(), s("z"))]));
    assert_eq!(qa.get("a").unwrap().as_array(), None);
    assert_eq!(qa.get("missing"), None);
}

#[test]
fn fragment_absent_without_hash_key() {
    let qa = Qa::parse("{a:1}").unwrap();
    assert_eq!(qa.fragment(), None);
    let qa = Qa::parse("{#:[x]}").unwrap();
    assert_eq!(qa.fragment(), None);
}

#[test]
fn parse_errors_name_the_fault() {
    assert_eq!(Qa::parse(""), Err(ParseError::UnexpectedEof));
    assert_eq!(Qa::parse("{a:[b"), Err(ParseError::ExpectedCloseBracket));
    assert_eq!(Qa::parse("{a:{b:c"), Err(ParseError::ExpectedCloseBrace));
    assert_eq!(Qa::parse("{a:\"x\"y}"), Err(ParseError::UnexpectedChar('y')));
    assert_eq!(Qa::parse("{a:\\q}"), Err(ParseError::InvalidEscape));
    assert_eq!(Qa::parse("{a:}").unwrap().get("a"), Some(&s("")));
}

#[test]
fn text_after_closing_brace_is_ignored() {
    let qa = Qa::parse("{a:1}x").unwrap();
    assert_eq!(qa.get("a"), Some(&s("1")));
}

#[test]
fn trailing_commas_are_accepted() {
    let qa = Qa::parse("{a:[1,2,],b,}").unwrap();
    assert_eq!(qa.get("a"), Some(&QaValue::Array(vec![s("1"), s("2")])));
    assert_eq!(qa.get("b"), Some(&s("")));
}

#[test]
fn value_to_string_formats_nested_values() {
    let v = QaValue::Array(vec![s("a"), s("b c"), QaValue::Object(vec![("k".to_string(), s(""))])]);
    assert_eq!(v.to_string(), "[a,\"b c\",{k:\"\"}]");
}
