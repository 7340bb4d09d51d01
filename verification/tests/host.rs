use json_parser::error::JsonError;
use json_parser::host::{dumps, json_to_python, loads, python_to_json, shape_of, PyValue, Shape};
use json_parser::value::Json;

fn number(text: &str) -> Box<Json> {
    Box::new(Json::Number(text.to_string()))
}

fn integer(text: &str) -> PyValue {
    PyValue::Int(text.to_string())
}

fn fraction(text: &str) -> PyValue {
    PyValue::Float(text.to_string())
}

fn dict(items: Vec<(&str, PyValue)>) -> PyValue {
    PyValue::Dict(items.into_iter().map(|(key, value)| (key.to_string(), value)).collect())
}

#[test]
fn the_seven_shapes_go_by_their_names() {
    assert_eq!(shape_of("dict"), Some(Shape::Dict));
    assert_eq!(shape_of("list"), Some(Shape::List));
    assert_eq!(shape_of("str"), Some(Shape::Str));
    assert_eq!(shape_of("bool"), Some(Shape::Bool));
    assert_eq!(shape_of("int"), Some(Shape::Int));
    assert_eq!(shape_of("float"), Some(Shape::Float));
    assert_eq!(shape_of("NoneType"), Some(Shape::NoneType));
}

#[test]
fn other_names_have_no_shape() {
    for name in ["", "tuple", "set", "OrderedDict", "Dict", "dict ", "lis", "lists", "None", "bytes"] {
        assert_eq!(shape_of(name), None);
    }
}

#[test]
fn scalars_become_values() {
    assert_eq!(python_to_json(PyValue::NoneType), Ok(Json::Null));
    assert_eq!(python_to_json(PyValue::Bool(true)), Ok(Json::Bool(true)));
    assert_eq!(python_to_json(integer("5")), Ok(Json::Number("5".to_string())));
    assert_eq!(python_to_json(fraction("2.5")), Ok(Json::Number("2.5".to_string())));
    assert_eq!(
        python_to_json(PyValue::Str("x".to_string())),
        Ok(Json::String("x".to_string()))
    );
}

#[test]
fn int_and_float_become_the_same_number() {
    assert_eq!(python_to_json(integer("1")), python_to_json(fraction("1")));
}

#[test]
fn list_becomes_an_array_in_order() {
    let list = PyValue::List(vec![integer("3"), integer("1"), PyValue::NoneType, integer("2")]);
    let expected = Json::Array(vec![number("3"), number("1"), Box::new(Json::Null), number("2")]);
    assert_eq!(python_to_json(list), Ok(expected));
}

#[test]
fn dict_becomes_an_object_in_order() {
    let value = dict(vec![("b", integer("1")), ("a", PyValue::List(vec![PyValue::Bool(false)]))]);
    let expected = Json::Object(vec![
        ("b".to_string(), number("1")),
        ("a".to_string(), Box::new(Json::Array(vec![Box::new(Json::Bool(false))]))),
    ]);
    assert_eq!(python_to_json(value), Ok(expected));
}

#[test]
fn later_item_with_the_same_key_text_stays() {
    let value = dict(vec![("1", integer("1")), ("2", integer("2")), ("1", integer("3"))]);
    let expected =
        Json::Object(vec![("1".to_string(), number("3")), ("2".to_string(), number("2"))]);
    assert_eq!(python_to_json(value), Ok(expected));
}

#[test]
fn object_of_another_type_is_named() {
    let value = PyValue::Other("tuple".to_string());
    assert_eq!(python_to_json(value), Err(JsonError::UnsupportedHostShape("tuple".to_string())));
    let value = PyValue::Other("set".to_string());
    assert_eq!(dumps(value), Err(JsonError::UnsupportedHostShape("set".to_string())));
}

#[test]
fn first_object_of_another_type_is_the_one_named() {
    let value = PyValue::List(vec![
        integer("1"),
        dict(vec![("a", PyValue::Other("bytes".to_string()))]),
        PyValue::Other("set".to_string()),
    ]);
    assert_eq!(dumps(value), Err(JsonError::UnsupportedHostShape("bytes".to_string())));
}

#[test]
fn dumps_a_dict() {
    assert_eq!(dumps(dict(vec![("a", integer("1"))])), Ok("{\n    'a': 1\n}\n".to_string()));
}

#[test]
fn dumps_a_list() {
    let list = PyValue::List(vec![integer("1"), integer("2")]);
    assert_eq!(dumps(list), Ok("[\n    1,\n    2\n]\n".to_string()));
}

#[test]
fn dumps_floats_as_the_text_of_their_value() {
    let texts: Vec<String> = [1.0f64, 2.5, 1e21, 1e-7, -0.0].iter().map(|x| format!("{}", x)).collect();
    assert_eq!(texts, vec!["1", "2.5", "1000000000000000000000", "0.0000001", "-0"]);
    let list = PyValue::List(texts.into_iter().map(PyValue::Float).collect());
    let expected = "[\n    1,\n    2.5,\n    1000000000000000000000,\n    0.0000001,\n    -0\n]\n";
    assert_eq!(dumps(list), Ok(expected.to_string()));
}

#[test]
fn dumps_scalars() {
    assert_eq!(dumps(PyValue::NoneType), Ok("null\n".to_string()));
    assert_eq!(dumps(PyValue::Bool(false)), Ok("false\n".to_string()));
    assert_eq!(dumps(PyValue::Str("a b".to_string())), Ok("'a b'\n".to_string()));
}

#[test]
fn values_become_host_objects() {
    assert_eq!(json_to_python(Json::Null), Ok(PyValue::NoneType));
    assert_eq!(json_to_python(Json::Bool(false)), Ok(PyValue::Bool(false)));
    assert_eq!(json_to_python(Json::String("s".to_string())), Ok(PyValue::Str("s".to_string())));
    let value = Json::Object(vec![
        ("k".to_string(), Box::new(Json::Array(vec![number("1"), Box::new(Json::Null)]))),
        ("l".to_string(), number("2")),
    ]);
    let expected = dict(vec![
        ("k", PyValue::List(vec![fraction("1"), PyValue::NoneType])),
        ("l", fraction("2")),
    ]);
    assert_eq!(json_to_python(value), Ok(expected));
}

#[test]
fn every_number_becomes_a_float() {
    assert_eq!(json_to_python(Json::Number("1".to_string())), Ok(fraction("1")));
    assert_eq!(json_to_python(Json::Number("1.0".to_string())), Ok(fraction("1.0")));
    assert_eq!(json_to_python(Json::Number("-inf".to_string())), Ok(fraction("-inf")));
}

#[test]
fn number_that_is_no_literal_has_no_counterpart() {
    assert_eq!(
        json_to_python(Json::Number("abc".to_string())),
        Err(JsonError::HostConversionFailure("abc".to_string()))
    );
    let value = Json::Array(vec![
        number("1"),
        Box::new(Json::Object(vec![("a".to_string(), number("1.2.3"))])),
        number("x"),
    ]);
    assert_eq!(json_to_python(value), Err(JsonError::HostConversionFailure("1.2.3".to_string())));
}

#[test]
fn loads_an_array_of_literals() {
    let expected = PyValue::List(vec![PyValue::Bool(true), PyValue::Bool(false), PyValue::NoneType]);
    assert_eq!(loads("[true,false,null]"), Ok(expected));
}

#[test]
fn loads_an_object_without_its_last_member() {
    assert_eq!(loads("{\"a\":1,\"b\":2}"), Ok(dict(vec![("a", fraction("1"))])));
    assert_eq!(loads("[1,2]"), Ok(PyValue::List(vec![fraction("1"), fraction("2")])));
}

#[test]
fn loads_fails_as_decoding_does() {
    assert_eq!(loads("]"), Err(JsonError::StructuralUnderflow(0)));
    assert_eq!(loads("[1-]"), Err(JsonError::MalformedNumber(3)));
    assert_eq!(loads("[ture]"), Err(JsonError::MalformedBoolean(5)));
    assert_eq!(loads("{\"a\":"), Ok(PyValue::NoneType));
}

#[test]
fn loaded_numbers_read_as_floats() {
    let loaded = loads("[1,1.0,2.50,-0,1e2]").unwrap();
    let members = match loaded {
        PyValue::List(members) => members,
        other => panic!("{:?}", other),
    };
    let values: Vec<f64> = members
        .iter()
        .map(|member| match member {
            PyValue::Float(text) => text.parse::<f64>().unwrap(),
            other => panic!("{:?}", other),
        })
        .collect();
    assert_eq!(values, vec![1.0, 1.0, 2.5, -0.0, 100.0]);
}

#[test]
fn messages_name_what_went_wrong() {
    assert_eq!(JsonError::MalformedNumber(3).message(), "malformed number");
    assert_eq!(JsonError::MalformedBoolean(3).message(), "malformed boolean");
    assert_eq!(JsonError::StructuralUnderflow(0).message(), "no container is open");
    assert_eq!(
        JsonError::UnsupportedHostShape("tuple".to_string()).message(),
        "unknown type tuple"
    );
    assert_eq!(
        JsonError::HostConversionFailure("1.2.3".to_string()).message(),
        "no host number for 1.2.3"
    );
}

#[test]
fn failures_of_decoding_have_an_offset() {
    assert_eq!(JsonError::MalformedNumber(3).offset(), Some(3));
    assert_eq!(JsonError::MalformedBoolean(0).offset(), Some(0));
    assert_eq!(JsonError::StructuralUnderflow(17).offset(), Some(17));
    assert_eq!(JsonError::UnsupportedHostShape("set".to_string()).offset(), None);
    assert_eq!(JsonError::HostConversionFailure("x".to_string()).offset(), None);
    assert_eq!(loads("[1,2,,3,x-]").unwrap_err().offset(), Some(10));
}
