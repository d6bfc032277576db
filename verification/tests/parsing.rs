use jdiff::parse_json;
use jdiff::run::Failure;
use serde_json::Value;

const BASIC_EQ_1A: &str = r#"{
    "nothing": null,
    "flag": true,
    "count": 42,
    "ratio": 1.5,
    "name": "first"
}"#;
const BASIC_EQ_1B: &str = r#"{"name":"first","ratio":1.5,"count":42,"flag":true,"nothing":null}"#;
const BASIC_DIFF_1A: &str = r#"{"nothing":false,"flag":true,"count":42,"ratio":1.5,"name":"first"}"#;
const BASIC_DIFF_1B: &str = r#"{"nothing":null,"flag":false,"count":42,"ratio":1.5,"name":"first"}"#;
const BASIC_DIFF_1C: &str = r#"{"nothing":null,"flag":true,"count":43,"ratio":1.5,"name":"first"}"#;
const BASIC_DIFF_1D: &str = r#"{"nothing":null,"flag":true,"count":42,"ratio":1.25,"name":"first"}"#;
const BASIC_DIFF_1E: &str = r#"{"nothing":null,"flag":true,"count":42,"ratio":1.5,"name":"second"}"#;
const BASIC_DIFF_1F: &str = r#"{"nothing":null,"flag":true,"count":"42","ratio":1.5,"name":"first"}"#;
const BASIC_DIFF_1G: &str = r#"{"nothing":null,"flag":true,"count":42,"ratio":1.5}"#;

const NESTED_EQ_1A: &str = r#"{
    "user": {"name": "Ada", "tags": ["a", "b"], "address": {"city": "Turin", "zip": 10100}},
    "scores": [1, [2, 3], {"best": 9}]
}"#;
const NESTED_EQ_1B: &str =
    r#"{"scores":[1,[2,3],{"best":9}],"user":{"address":{"zip":10100,"city":"Turin"},"tags":["a","b"],"name":"Ada"}}"#;
const NESTED_EQ_2A: &str = r#"[{"a": [1, 2, {"b": null}]}, [[], {}], "x"]"#;
const NESTED_EQ_2B: &str = r#"[ { "a" : [ 1 , 2 , { "b" : null } ] } , [ [ ] , { } ] , "x" ]"#;
const NESTED_DIFF_1A: &str = r#"{
    "user": {"name": "Ada", "tags": ["b", "a"], "address": {"city": "Turin", "zip": 10100}},
    "scores": [1, [2, 3], {"best": 9}]
}"#;
const NESTED_DIFF_1B: &str = r#"{
    "user": {"name": "Ada", "tags": ["a", "b"], "address": {"city": "Turin", "zip": 10101}},
    "scores": [1, [2, 3], {"best": 9}]
}"#;
const NESTED_DIFF_2A: &str = r#"{
    "user": {"name": "Ada", "tags": ["a", "b"], "address": {"city": "Turin", "zip": 10100}},
    "scores": [1, [2, 3, 4], {"best": 9}]
}"#;
const NESTED_DIFF_2B: &str = r#"{
    "user": {"name": "Ada", "tags": ["a", "b"], "address": {"city": "Turin"}},
    "scores": [1, [2, 3], {"best": 9}]
}"#;

fn read(text: &str) -> Result<Value, Failure> {
    parse_json(text.as_bytes())
}

#[test]
fn can_read_valid_json() {
    assert!(read(BASIC_EQ_1A).is_ok());
    assert!(read(BASIC_EQ_1B).is_ok());
    assert!(read(BASIC_DIFF_1A).is_ok());
    assert!(read(BASIC_DIFF_1B).is_ok());
    assert!(read(BASIC_DIFF_1C).is_ok());
    assert!(read(BASIC_DIFF_1D).is_ok());
    assert!(read(BASIC_DIFF_1E).is_ok());
    assert!(read(BASIC_DIFF_1F).is_ok());
    assert!(read(BASIC_DIFF_1G).is_ok());
    assert!(read(NESTED_EQ_1A).is_ok());
    assert!(read(NESTED_EQ_1B).is_ok());
    assert!(read(NESTED_EQ_2A).is_ok());
    assert!(read(NESTED_EQ_2B).is_ok());
    assert!(read(NESTED_DIFF_1A).is_ok());
    assert!(read(NESTED_DIFF_1B).is_ok());
    assert!(read(NESTED_DIFF_2A).is_ok());
    assert!(read(NESTED_DIFF_2B).is_ok());
}

#[test]
fn cannot_read_invalid_json() {
    assert!(read("").is_err());
    assert!(read(r#"{"name": "Ada", "age": }"#).is_err());
}

#[test]
fn compare_same_basic_variants() {
    let node1a = read(BASIC_EQ_1A).unwrap();
    let node1b = read(BASIC_EQ_1B).unwrap();
    assert_eq!(node1a, node1b);
}

#[test]
fn compare_different_basic_variants() {
    let mut nodes = Vec::new();
    nodes.push(read(BASIC_EQ_1A).unwrap());
    nodes.push(read(BASIC_DIFF_1A).unwrap());
    nodes.push(read(BASIC_DIFF_1B).unwrap());
    nodes.push(read(BASIC_DIFF_1C).unwrap());
    nodes.push(read(BASIC_DIFF_1D).unwrap());
    nodes.push(read(BASIC_DIFF_1E).unwrap());
    nodes.push(read(BASIC_DIFF_1F).unwrap());
    nodes.push(read(BASIC_DIFF_1G).unwrap());

    for i in 0..nodes.len() {
        for j in i + 1..nodes.len() {
            assert_ne!(nodes[i], nodes[j]);
        }
    }
}

#[test]
fn compare_same_nested_variants() {
    let node1a = read(NESTED_EQ_1A).unwrap();
    let node1b = read(NESTED_EQ_1B).unwrap();
    assert_eq!(node1a, node1b);

    let node2a = read(NESTED_EQ_2A).unwrap();
    let node2b = read(NESTED_EQ_2B).unwrap();
    assert_eq!(node2a, node2b);
}

#[test]
fn compare_different_nested_variants() {
    let mut nodes = Vec::new();
    nodes.push(read(NESTED_EQ_1A).unwrap());
    nodes.push(read(NESTED_DIFF_1A).unwrap());
    nodes.push(read(NESTED_DIFF_1B).unwrap());
    nodes.push(read(NESTED_DIFF_2A).unwrap());
    nodes.push(read(NESTED_DIFF_2B).unwrap());

    for i in 0..nodes.len() {
        for j in i + 1..nodes.len() {
            assert_ne!(nodes[i], nodes[j]);
        }
    }
}

#[test]
fn parse_json_reads_what_serde_json_reads() {
    let value = read(r#"{"a": [1, -2, 3.5, "x", true, null]}"#).unwrap();
    let object = value.as_object().unwrap();
    assert_eq!(object.len(), 1);
    let items = object.get("a").unwrap().as_array().unwrap();
    assert_eq!(items.len(), 6);
    assert_eq!(items[0].as_u64(), Some(1));
    assert_eq!(items[1].as_i64(), Some(-2));
    assert_eq!(items[2].as_f64(), Some(3.5));
    assert_eq!(items[3].as_str(), Some("x"));
    assert_eq!(items[4].as_bool(), Some(true));
    assert!(items[5].is_null());
}

#[test]
fn parse_failure_carries_the_message_of_serde_json() {
    let text = r#"{"name": "Ada", "age": }"#;
    let expected = serde_json::from_slice::<Value>(text.as_bytes()).unwrap_err().to_string();
    match read(text) {
        Err(Failure::Parse(message)) => {
            assert_eq!(message, expected);
            assert_eq!(message, "expected value at line 1 column 24");
        }
        other => panic!("a parse failure was due, not {:?}", other),
    }
    match read("") {
        Err(failure @ Failure::Parse(_)) => {
            assert_eq!(failure.message(), "EOF while parsing a value at line 1 column 0");
        }
        other => panic!("a parse failure was due, not {:?}", other),
    }
}

#[test]
fn parse_json_refuses_trailing_text_and_bad_encoding() {
    assert!(matches!(read("1 2"), Err(Failure::Parse(_))));
    assert!(matches!(parse_json(&[b'"', 0xff, b'"']), Err(Failure::Parse(_))));
    assert!(matches!(read("[1, 2"), Err(Failure::Parse(_))));
}
