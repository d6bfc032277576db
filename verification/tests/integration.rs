use jdiff::parse_json;
use jdiff::run;
use jdiff::run::Failure;
use jdiff::run::Output;
use jdiff::Config;
use serde_json::Value;

const USER1: &str = r#"{
    "name": "John Doe",
    "age": 43,
    "address": {"street": "10 Downing Street", "city": "London"},
    "phones": ["+44 1234567", "+44 2345678"]
}"#;

const USER2: &str = r#"{
    "name": "John Doe",
    "age": 44,
    "address": {"street": "10 Downing Street", "city": "Paris", "code": 75001},
    "phones": ["+44 1234567"],
    "email": "john@example.org"
}"#;

const USER1_USER2_EQ: &str = r#"{
    "name": "John Doe",
    "address": {"street": "10 Downing Street"},
    "phones": ["+44 1234567"]
}"#;

const USER1_USER2_DIFF: &str = r#"{
    "age": [43, 44],
    "address": {"city": ["London", "Paris"]},
    "phones": ["+44 2345678"]
}"#;

const USER2_USER1_DIFF: &str = r#"{
    "age": [44, 43],
    "address": {"city": ["Paris", "London"], "code": 75001},
    "email": "john@example.org"
}"#;

fn arguments(first: &str, second: &str, output: &str) -> Vec<String> {
    vec![String::new(), first.to_string(), second.to_string(), output.to_string()]
}

fn document(text: &str) -> Value {
    parse_json(text.as_bytes()).unwrap()
}

fn outputs(args: &[String], first: &str, second: &str) -> Vec<Output> {
    let config = Config::new(args).unwrap();
    run(config, first.as_bytes(), second.as_bytes()).unwrap()
}

#[test]
fn compare_same_file() {
    let args = arguments("tests/data/user1.json", "tests/data/user1.json", "tests/output1");
    // run comparison
    let written = outputs(&args, USER1, USER1);
    // check output
    assert_eq!(written.len(), 3);
    assert_eq!(written[0].path, "tests/output1_eq.json");
    assert_eq!(written[1].path, "tests/output1_diff_ab.json");
    assert_eq!(written[2].path, "tests/output1_diff_ba.json");
    let user = document(USER1);
    let equal = document(&written[0].text);
    assert_eq!(equal, user);
    let diff_ab = document(&written[1].text);
    assert_eq!(Value::Null, diff_ab);
    let diff_ba = document(&written[2].text);
    assert_eq!(Value::Null, diff_ba);
}

#[test]
fn compare_different_file() {
    let args = arguments("tests/data/user1.json", "tests/data/user2.json", "tests/output2");
    // run comparison
    let written = outputs(&args, USER1, USER2);
    // check output
    assert_eq!(written.len(), 3);
    assert_eq!(written[0].path, "tests/output2_eq.json");
    assert_eq!(written[1].path, "tests/output2_diff_ab.json");
    assert_eq!(written[2].path, "tests/output2_diff_ba.json");
    let expected = document(USER1_USER2_EQ);
    let equal = document(&written[0].text);
    assert_eq!(equal, expected);
    let expected = document(USER1_USER2_DIFF);
    let diff_ab = document(&written[1].text);
    assert_eq!(diff_ab, expected);
    let expected = document(USER2_USER1_DIFF);
    let diff_ba = document(&written[2].text);
    assert_eq!(diff_ba, expected);
}

#[test]
fn end_to_end_scenario() {
    let args = arguments("a.json", "b.json", "out");
    let written = outputs(&args, "{ \"x\":1 }", "{ \"x\":1 }");
    assert_eq!(written.len(), 3);
    assert_eq!(written[0].path, "out_eq.json");
    assert_eq!(written[0].text, "{\n  \"x\": 1\n}");
    assert_eq!(document(&written[0].text), document("{\"x\":1}"));
    assert_eq!(written[1].path, "out_diff_ab.json");
    assert_eq!(written[1].text, "null");
    assert_eq!(written[2].path, "out_diff_ba.json");
    assert_eq!(written[2].text, "null");
}

#[test]
fn run_prints_indented_text_with_sorted_keys() {
    let args = arguments("a.json", "b.json", "p");
    let written = outputs(&args, r#"{"b": [1, 2], "a": "x"}"#, r#"{"a": "y", "b": [1, 3]}"#);
    assert_eq!(written[0].text, "{\n  \"b\": [\n    1\n  ]\n}");
    assert_eq!(
        written[1].text,
        "{\n  \"a\": [\n    \"x\",\n    \"y\"\n  ],\n  \"b\": [\n    [\n      2,\n      3\n    ]\n  ]\n}"
    );
    assert_eq!(
        written[2].text,
        "{\n  \"a\": [\n    \"y\",\n    \"x\"\n  ],\n  \"b\": [\n    [\n      3,\n      2\n    ]\n  ]\n}"
    );
}

#[test]
fn run_twice_gives_the_same_files() {
    let args = arguments("a.json", "b.json", "same");
    let once = outputs(&args, USER1, USER2);
    let twice = outputs(&args, USER1, USER2);
    assert_eq!(once.len(), twice.len());
    for (first, second) in once.iter().zip(twice.iter()) {
        assert_eq!(first.path, second.path);
        assert_eq!(first.text, second.text);
    }
}

#[test]
fn run_reports_the_first_text_that_is_no_json() {
    let args = arguments("a.json", "b.json", "out");
    let config = Config::new(&args).unwrap();
    match run(config, b"{\"x\": ", b"]") {
        Err(Failure::Parse(message)) => assert_eq!(message, "EOF while parsing a value at line 1 column 6"),
        other => panic!("a parse failure was due, not {:?}", other),
    }
    let config = Config::new(&args).unwrap();
    match run(config, b"{\"x\": 1}", b"]") {
        Err(Failure::Parse(message)) => assert_eq!(message, "expected value at line 1 column 1"),
        other => panic!("a parse failure was due, not {:?}", other),
    }
}

#[test]
fn run_with_nothing_equal_writes_null_as_equal_set() {
    let args = arguments("a.json", "b.json", "out");
    let written = outputs(&args, "{\"x\":1}", "{\"x\":2}");
    assert_eq!(written[0].text, "null");
    assert_eq!(document(&written[1].text), document("{\"x\":[1,2]}"));
    assert_eq!(document(&written[2].text), document("{\"x\":[2,1]}"));
}

#[test]
fn config_takes_three_names_after_the_program() {
    let args = arguments("one", "two", "three");
    let config = Config::new(&args).unwrap();
    assert_eq!(config.first_input(), "one");
    assert_eq!(config.second_input(), "two");
    assert_eq!(config.output(), "three");
}

#[test]
fn config_refuses_further_arguments() {
    let expected = "Invalid number of arguments: <input1> <input2> <output>";
    let mut args = arguments("one", "two", "three");
    args.push("four".to_string());
    match Config::new(&args) {
        Err(message) => assert_eq!(message, expected),
        Ok(_) => panic!("five arguments are too many"),
    }
    args.push("five".to_string());
    assert!(Config::new(&args).is_err());
}

#[test]
fn run_shows_a_null_that_only_one_document_holds() {
    let args = arguments("a.json", "b.json", "out");
    let written = outputs(&args, "{\"a\":null}", "{}");
    assert_eq!(written[0].text, "null");
    assert_eq!(written[1].text, "{\n  \"a\": null\n}");
    assert_eq!(written[2].text, "null");
    let written = outputs(&args, "[null,1]", "[null,1]");
    assert_eq!(document(&written[0].text), document("[null,1]"));
    assert_eq!(written[1].text, "null");
    assert_eq!(written[2].text, "null");
    let written = outputs(&args, "{\"a\":null}", "{\"a\":null}");
    assert_eq!(document(&written[0].text), document("{\"a\":null}"));
}

#[test]
fn config_refuses_too_few_arguments() {
    let expected = "Invalid number of arguments: <input1> <input2> <output>";
    let mut args: Vec<String> = Vec::new();
    for count in 0..4 {
        match Config::new(&args) {
            Err(message) => assert_eq!(message, expected),
            Ok(_) => panic!("{} arguments are too few", count),
        }
        args.push(format!("argument{}", count));
    }
    assert!(Config::new(&args).is_ok());
    assert_eq!(jdiff::config::USAGE, expected);
}
