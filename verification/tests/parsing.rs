use sciffer_rs::config::load_config;
use sciffer_rs::tools::parser::parse_json_md;
use sciffer_rs::tools::parser::ParserError;

#[test]
fn test_parse_json_md() {
    let md_content = r#"
        ```json
        {
  "title": "Deep Residual Learning for Image Recognition",
  "solved_problem": ["Image recognition"],
  "research_field": ["Visual Recognition", "Computer Vision"],
  "techniques_used": ["Residual learning"]
}
  ```
        "#
    .to_string();

    match parse_json_md(&md_content) {
        Ok(json) => println!("Parsed JSON: {}", json),
        Err(e) => println!("Error: {}", e.message()),
    }
}

#[test]
fn fenced_block_parses_to_an_object() {
    let reply = "Here you go:\n```json\n{\"title\": \"x\", \"techniques_used\": [\"a\"]}\n```\nenjoy";
    let v = parse_json_md(reply).expect("the fenced payload is a JSON object");
    assert!(v.is_object());
    assert_eq!(v["title"], serde_json::Value::String("x".to_string()));
}

#[test]
fn raw_braced_payload_parses_without_a_fence() {
    let reply = "  {\"title\": \"y\"}  ";
    let v = parse_json_md(reply).expect("the raw payload is a JSON object");
    assert_eq!(v["title"], serde_json::Value::String("y".to_string()));
}

#[test]
fn prose_without_payload_is_rejected() {
    match parse_json_md("no structured payload here") {
        Err(ParserError::NoJsonFound) => {}
        other => panic!("expected NoJsonFound, got {:?}", other.map(|_| ())),
    }
}

#[test]
fn broken_payload_is_rejected_as_invalid() {
    match parse_json_md("```json\n{\"title\": oops}\n```") {
        Err(ParserError::InvalidJson) => {}
        other => panic!("expected InvalidJson, got {:?}", other.map(|_| ())),
    }
}

#[test]
fn non_object_payload_is_rejected() {
    match parse_json_md("```json\n[1, 2, 3]\n```") {
        Err(ParserError::NotADictionary) => {}
        other => panic!("expected NotADictionary, got {:?}", other.map(|_| ())),
    }
}

#[test]
fn parser_errors_render_their_causes() {
    assert_eq!(ParserError::NoJsonFound.message(), "No valid JSON block found");
    assert_eq!(ParserError::NotADictionary.message(), "JSON is not a dictionary");
}

#[test]
fn config_reads_the_interval() {
    let c = load_config("time_interval = 5\n").expect("the line assigns the key");
    assert_eq!(c.time_interval, 5);
}

#[test]
fn config_skips_other_lines_and_blanks() {
    let text = "# schedule\nname = \"sciffer\"\n  time_interval\t=  3600  \n";
    let c = load_config(text).expect("the third line assigns the key");
    assert_eq!(c.time_interval, 3600);
}

#[test]
fn config_without_the_key_is_rejected() {
    assert!(load_config("name = \"sciffer\"\n").is_none());
    assert!(load_config("").is_none());
    assert!(load_config("time_interval = \n").is_none());
    assert!(load_config("time_interval = 5x\n").is_none());
}

#[test]
fn config_rejects_a_value_past_u64() {
    assert!(load_config("time_interval = 18446744073709551615\n").is_some());
    assert!(load_config("time_interval = 18446744073709551616\n").is_none());
}
