use ai_cli::api::ai::{compose_reply, extract_field, leaf_text, DeepseekAi, FieldError};
use ai_cli::api::conversation::Role;

const SAMPLE_JSON: &str = r#"{
    "choices": [{
        "finish_reason": "stop",
        "index": 0,
        "message": {
            "content": "**9.8 is bigger than 9.11.**\n\n### Explanation:\n1. Compare the whole numbers first.",
            "reasoning_content": "Okay, I am comparing decimals here: 9.8 is larger than 9.11 since 0.80 > 0.11.",
            "role": "assistant"
        }
    }],
    "created": 1738040426,
    "id": "c1b1c2d1",
    "model": "deepseek-reasoner",
    "object": "chat.completion",
    "usage": {
        "completion_tokens": 814,
        "prompt_tokens": 43,
        "total_tokens": 857
    }
}"#;

fn sample() -> serde_json::Value {
    serde_json::from_str(SAMPLE_JSON).unwrap()
}

#[test]
fn test_extract_field_content() {
    let response_json = sample();
    let content = extract_field(&response_json["choices"][0], &["message", "content"]).unwrap();
    assert!(content.contains("9.8 is bigger than 9.11"));
    assert!(content.contains("Explanation:"));
}

#[test]
fn test_extract_field_reasoning() {
    let response_json = sample();
    let reasoning =
        extract_field(&response_json["choices"][0], &["message", "reasoning_content"]).unwrap();
    assert!(reasoning.contains("comparing decimals"));
    assert!(reasoning.contains("9.8 is larger than 9.11"));
}

#[test]
fn test_extract_field_usage() {
    let response_json = sample();
    let usage = extract_field(&response_json, &["usage", "completion_tokens"]).unwrap();
    assert_eq!(usage, "814");
}

#[test]
fn test_extract_field_error_invalid_path() {
    let response_json = sample();
    let result = extract_field(&response_json, &["invalid", "path"]);
    assert!(result.is_err());
    assert!(result.unwrap_err().message().contains("Field invalid not found"));
}

#[test]
fn test_extract_field_error_non_string() {
    let response_json = sample();
    let result = extract_field(&response_json, &["choices"]);
    assert!(result.is_err());
    assert!(result.unwrap_err().message().contains("Field is not a string or number"));
}

#[test]
fn leaf_text_prefers_string() {
    assert_eq!(leaf_text(Some("a".to_string()), Some("1".to_string())), Ok("a".to_string()));
    assert_eq!(leaf_text(None, Some("1".to_string())), Ok("1".to_string()));
    assert_eq!(leaf_text(None, None), Err(FieldError::NotStringOrNumber));
}

#[test]
fn reply_joins_parts() {
    let m = compose_reply("answer", "why", "12");
    assert_eq!(m.role(), Role::Assistant);
    assert_eq!(m.text(), "answer\n\nReasoning: why\n\nUsage: 12");
}

#[test]
fn authorization_header() {
    let ai = DeepseekAi::new("k-1".to_string());
    assert_eq!(ai.api_key(), "k-1");
    assert_eq!(ai.authorization(), "Bearer k-1");
}
