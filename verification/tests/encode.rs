use json_parser::decoder::string_to_json;
use json_parser::encoder::json_to_string;
use json_parser::error::JsonError;
use json_parser::value::{insert_member, unbox, Json};

fn number(text: &str) -> Box<Json> {
    Box::new(Json::Number(text.to_string()))
}

fn string(text: &str) -> Box<Json> {
    Box::new(Json::String(text.to_string()))
}

fn object(entries: Vec<(&str, Box<Json>)>) -> Json {
    Json::Object(entries.into_iter().map(|(key, value)| (key.to_string(), value)).collect())
}

#[test]
fn scalars_take_one_line() {
    assert_eq!(json_to_string(&Json::Null, 0, false), "null\n");
    assert_eq!(json_to_string(&Json::Bool(true), 0, false), "true\n");
    assert_eq!(json_to_string(&Json::Bool(false), 0, false), "false\n");
    assert_eq!(json_to_string(&Json::Number("1".to_string()), 0, false), "1\n");
    assert_eq!(json_to_string(&Json::Number("-2.5".to_string()), 0, false), "-2.5\n");
    assert_eq!(json_to_string(&Json::String("a".to_string()), 0, false), "'a'\n");
}

#[test]
fn comma_stands_before_the_line_feed() {
    assert_eq!(json_to_string(&Json::Null, 0, true), "null,\n");
    assert_eq!(json_to_string(&Json::String("a".to_string()), 0, true), "'a',\n");
    assert_eq!(json_to_string(&Json::Array(vec![]), 0, true), "[\n],\n");
}

#[test]
fn scalar_does_not_depend_on_the_indent() {
    for indent in [0usize, 1, 4, 17] {
        assert_eq!(json_to_string(&Json::Null, indent, false), "null\n");
        assert_eq!(json_to_string(&Json::Number("7".to_string()), indent, true), "7,\n");
        assert_eq!(json_to_string(&Json::String("s".to_string()), indent, false), "'s'\n");
    }
}

#[test]
fn string_is_not_escaped() {
    let value = Json::String("it's \"here\"\\\n".to_string());
    assert_eq!(json_to_string(&value, 0, false), "'it's \"here\"\\\n'\n");
}

#[test]
fn object_with_one_member() {
    let value = object(vec![("a", number("1"))]);
    assert_eq!(json_to_string(&value, 0, false), "{\n    'a': 1\n}\n");
}

#[test]
fn array_with_two_members() {
    let value = Json::Array(vec![number("1"), number("2")]);
    assert_eq!(json_to_string(&value, 0, false), "[\n    1,\n    2\n]\n");
}

#[test]
fn object_with_three_members() {
    let value = object(vec![("a", number("1")), ("b", string("x")), ("c", Box::new(Json::Null))]);
    let expected = "{\n    'a': 1,\n    'b': 'x',\n    'c': null\n}\n";
    assert_eq!(json_to_string(&value, 0, false), expected);
}

#[test]
fn empty_containers() {
    assert_eq!(json_to_string(&Json::Array(vec![]), 0, false), "[\n]\n");
    assert_eq!(json_to_string(&object(vec![]), 0, false), "{\n}\n");
}

#[test]
fn array_in_an_array_is_one_level_deeper() {
    let value = Json::Array(vec![Box::new(Json::Array(vec![number("1")]))]);
    let expected = "[\n    [\n            1\n        ]\n]\n";
    assert_eq!(json_to_string(&value, 0, false), expected);
}

#[test]
fn array_in_an_object_is_not_deeper() {
    let value = object(vec![("a", Box::new(Json::Array(vec![number("1")])))]);
    let expected = "{\n    'a': [\n        1\n    ]\n}\n";
    assert_eq!(json_to_string(&value, 0, false), expected);
}

#[test]
fn object_in_an_array_is_one_level_deeper() {
    let value = Json::Array(vec![Box::new(object(vec![("a", number("1"))])), number("2")]);
    let expected = "[\n    {\n            'a': 1\n        },\n    2\n]\n";
    assert_eq!(json_to_string(&value, 0, false), expected);
}

#[test]
fn object_in_an_object_is_not_deeper() {
    let inner = object(vec![("b", number("1")), ("c", number("2"))]);
    let value = object(vec![("a", Box::new(inner)), ("d", number("3"))]);
    let expected = "{\n    'a': {\n        'b': 1,\n        'c': 2\n    },\n    'd': 3\n}\n";
    assert_eq!(json_to_string(&value, 0, false), expected);
}

#[test]
fn indent_moves_the_members_and_the_closing_bracket() {
    let value = Json::Array(vec![number("1")]);
    assert_eq!(json_to_string(&value, 2, true), "[\n      1\n  ],\n");
    let value = object(vec![("k", number("1"))]);
    assert_eq!(json_to_string(&value, 3, false), "{\n       'k': 1\n   }\n");
}

#[test]
fn same_value_gives_the_same_text() {
    let build = || {
        object(vec![
            ("b", Box::new(Json::Array(vec![number("1"), string("x")]))),
            ("a", Box::new(Json::Bool(false))),
        ])
    };
    let first = json_to_string(&build(), 0, false);
    let second = json_to_string(&build(), 0, false);
    assert_eq!(first, second);
    assert_eq!(first, "{\n    'b': [\n        1,\n        'x'\n    ],\n    'a': false\n}\n");
    let copy = build().clone();
    assert_eq!(json_to_string(&copy, 0, false), first);
}

#[test]
fn encoded_string_does_not_decode_to_itself() {
    let value = Json::Array(vec![string("a")]);
    let text = json_to_string(&value, 0, false);
    assert_eq!(text, "[\n    'a'\n]\n");
    assert_eq!(string_to_json(&text), Err(JsonError::MalformedBoolean(10)));
    assert_ne!(string_to_json(&text), Ok(value));
}

#[test]
fn encoded_object_does_not_decode_to_itself() {
    let value = object(vec![("a", number("1"))]);
    let text = json_to_string(&value, 0, false);
    assert_eq!(string_to_json(&text), Ok(object(vec![])));
    assert_ne!(string_to_json(&text), Ok(value));
}

#[test]
fn encoded_word_decodes_to_another_string() {
    let value = Json::Array(vec![string("x y")]);
    let text = json_to_string(&value, 0, false);
    assert_eq!(string_to_json(&text), Ok(Json::Array(vec![string("")])));
}

#[test]
fn clone_copies_the_whole_tree() {
    let value = object(vec![
        ("a", Box::new(Json::Array(vec![number("1"), Box::new(Json::Null)]))),
        ("b", string("x")),
        ("c", Box::new(Json::Bool(true))),
    ]);
    let copy = value.clone();
    assert_eq!(copy, value);
}

#[test]
fn unbox_gives_the_value() {
    assert_eq!(unbox(Box::new(5u32)), 5);
    assert_eq!(unbox(number("1")), Json::Number("1".to_string()));
}

#[test]
fn insert_member_appends_a_new_key() {
    let mut entries = vec![("a".to_string(), number("1"))];
    insert_member(&mut entries, "b".to_string(), Json::Null);
    assert_eq!(
        entries,
        vec![("a".to_string(), number("1")), ("b".to_string(), Box::new(Json::Null))]
    );
}

#[test]
fn insert_member_replaces_the_value_of_a_known_key() {
    let mut entries = vec![
        ("a".to_string(), number("1")),
        ("b".to_string(), number("2")),
        ("c".to_string(), number("3")),
    ];
    insert_member(&mut entries, "b".to_string(), Json::Bool(true));
    assert_eq!(
        entries,
        vec![
            ("a".to_string(), number("1")),
            ("b".to_string(), Box::new(Json::Bool(true))),
            ("c".to_string(), number("3")),
        ]
    );
}

#[test]
fn insert_member_into_no_members() {
    let mut entries = Vec::new();
    insert_member(&mut entries, "".to_string(), Json::Null);
    assert_eq!(entries, vec![("".to_string(), Box::new(Json::Null))]);
}
