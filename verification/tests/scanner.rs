use json_parser::decoder::{
    add_to_previous, class_of_char, literal, store_literal, string_to_json, LiteralKind, Scanner,
};
use json_parser::error::JsonError;
use json_parser::value::Json;

fn number(text: &str) -> Box<Json> {
    Box::new(Json::Number(text.to_string()))
}

fn run(text: &str) -> Result<Json, JsonError> {
    let mut scanner = Scanner::new();
    for (offset, c) in text.chars().enumerate() {
        scanner.step(c, offset)?;
    }
    Ok(scanner.finish())
}

#[test]
fn pass_without_characters_ends_in_null() {
    assert_eq!(Scanner::new().finish(), Json::Null);
}

#[test]
fn pass_step_by_step_is_the_decoder() {
    let texts = [
        "",
        "[1,2]",
        "{\"a\":1,\"b\":2}",
        "{\"a\":[1,{\"b\":null,},\"x\"],}",
        "[true,false,null]",
        "[[1],[2]]",
        "]",
        "[1.2.3]",
        "[flase]",
        "{\"a\":",
        "[\"a,b\"]",
    ];
    for text in texts {
        assert_eq!(run(text), string_to_json(text), "{:?}", text);
    }
}

#[test]
fn steps_report_the_offset_they_are_given() {
    let mut scanner = Scanner::new();
    assert_eq!(scanner.step('}', 41), Err(JsonError::StructuralUnderflow(41)));
    let mut scanner = Scanner::new();
    assert_eq!(scanner.step('[', 0), Ok(()));
    assert_eq!(scanner.step('-', 1), Ok(()));
    assert_eq!(scanner.step(',', 7), Err(JsonError::MalformedNumber(7)));
}

#[test]
fn flush_stores_the_literal_and_starts_a_new_one() {
    let mut scanner = Scanner::new();
    for (offset, c) in "[12".chars().enumerate() {
        assert_eq!(scanner.step(c, offset), Ok(()));
    }
    assert_eq!(scanner.flush_buffer(3), Ok(()));
    assert_eq!(scanner.flush_buffer(3), Ok(()));
    assert_eq!(scanner.close_container(3), Ok(()));
    let expected = Json::Array(vec![number("12"), Box::new(Json::String(String::new()))]);
    assert_eq!(scanner.finish(), expected);
}

#[test]
fn flush_without_a_container_is_an_underflow() {
    let mut scanner = Scanner::new();
    assert_eq!(scanner.flush_buffer(5), Err(JsonError::StructuralUnderflow(5)));
}

#[test]
fn close_without_a_container_is_an_underflow() {
    let mut scanner = Scanner::new();
    assert_eq!(scanner.close_container(9), Err(JsonError::StructuralUnderflow(9)));
}

#[test]
fn close_does_not_store_the_literal() {
    let mut scanner = Scanner::new();
    for (offset, c) in "[12".chars().enumerate() {
        assert_eq!(scanner.step(c, offset), Ok(()));
    }
    assert_eq!(scanner.close_container(3), Ok(()));
    assert_eq!(scanner.finish(), Json::Array(vec![]));
}

#[test]
fn classes_of_characters() {
    for c in "0123456789.-".chars() {
        assert_eq!(class_of_char(c), Some(LiteralKind::Numeric), "{:?}", c);
    }
    for c in "truefas".chars() {
        assert_eq!(class_of_char(c), Some(LiteralKind::Boolean), "{:?}", c);
    }
    for c in "nl".chars() {
        assert_eq!(class_of_char(c), Some(LiteralKind::Null), "{:?}", c);
    }
    for c in " \n\t+EbcdxyzTN'\\/\u{e9}\u{663}".chars() {
        assert_eq!(class_of_char(c), None, "{:?}", c);
    }
}

#[test]
fn literal_reads_the_text_as_its_kind_says() {
    let text = |s: &str| s.to_string();
    assert_eq!(literal(LiteralKind::Text, text("12"), 0), Ok(Json::String(text("12"))));
    assert_eq!(literal(LiteralKind::Text, text(""), 0), Ok(Json::String(text(""))));
    assert_eq!(literal(LiteralKind::Numeric, text("12"), 0), Ok(Json::Number(text("12"))));
    assert_eq!(literal(LiteralKind::Numeric, text(""), 4), Err(JsonError::MalformedNumber(4)));
    assert_eq!(literal(LiteralKind::Numeric, text("true"), 4), Err(JsonError::MalformedNumber(4)));
    assert_eq!(literal(LiteralKind::Boolean, text("true"), 0), Ok(Json::Bool(true)));
    assert_eq!(literal(LiteralKind::Boolean, text("false"), 0), Ok(Json::Bool(false)));
    assert_eq!(literal(LiteralKind::Boolean, text("True"), 2), Err(JsonError::MalformedBoolean(2)));
    assert_eq!(literal(LiteralKind::Boolean, text(""), 2), Err(JsonError::MalformedBoolean(2)));
    assert_eq!(literal(LiteralKind::Boolean, text("truee"), 2), Err(JsonError::MalformedBoolean(2)));
    assert_eq!(literal(LiteralKind::Null, text("null"), 0), Ok(Json::Null));
    assert_eq!(literal(LiteralKind::Null, text("whatever"), 0), Ok(Json::Null));
}

#[test]
fn literal_is_appended_to_an_array() {
    let top = Json::Array(vec![number("1")]);
    let filled = store_literal(top, Some("k".to_string()), Json::Null);
    assert_eq!(filled, Json::Array(vec![number("1"), Box::new(Json::Null)]));
}

#[test]
fn literal_goes_under_its_key_or_nowhere() {
    let top = Json::Object(vec![("a".to_string(), number("1"))]);
    let filled = store_literal(top, Some("b".to_string()), Json::Null);
    let expected = Json::Object(vec![
        ("a".to_string(), number("1")),
        ("b".to_string(), Box::new(Json::Null)),
    ]);
    assert_eq!(filled, expected);
    let filled = store_literal(filled, None, Json::Bool(true));
    assert_eq!(filled, expected);
}

#[test]
fn container_goes_under_its_key_or_under_error() {
    let parent = Json::Object(vec![]);
    let joined = add_to_previous(parent, Some("a".to_string()), Json::Array(vec![]));
    let joined = add_to_previous(joined, None, Json::Object(vec![]));
    let expected = Json::Object(vec![
        ("a".to_string(), Box::new(Json::Array(vec![]))),
        ("ERROR".to_string(), Box::new(Json::Object(vec![]))),
    ]);
    assert_eq!(joined, expected);
}

#[test]
fn container_is_appended_to_an_array() {
    let parent = Json::Array(vec![number("1")]);
    let joined = add_to_previous(parent, Some("a".to_string()), Json::Array(vec![]));
    assert_eq!(joined, Json::Array(vec![number("1"), Box::new(Json::Array(vec![]))]));
}

#[test]
fn scalar_takes_no_member() {
    assert_eq!(store_literal(Json::Null, None, Json::Bool(true)), Json::Null);
    let joined = add_to_previous(Json::Bool(false), Some("a".to_string()), Json::Null);
    assert_eq!(joined, Json::Bool(false));
}
