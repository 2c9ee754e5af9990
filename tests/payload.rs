use anki_cli::payload::{extract_json, extract_json_block, PayloadError};

#[test]
fn plain_json_is_trimmed() {
    assert_eq!(extract_json("  {\"a\":1}\n"), Ok("{\"a\":1}".to_string()));
}

#[test]
fn fenced_json_is_unwrapped() {
    assert_eq!(extract_json("```json\n{\"a\":1}\n```"), Ok("{\"a\":1}".to_string()));
    assert_eq!(extract_json("\n  ```\n{\n\"a\": 1\n}\n```  \n"), Ok("{\n\"a\": 1\n}".to_string()));
}

#[test]
fn fence_without_closing_keeps_the_rest() {
    assert_eq!(extract_json("```\n{\"a\":1}"), Ok("{\"a\":1}".to_string()));
}

#[test]
fn crlf_lines_and_indented_close() {
    assert_eq!(extract_json("```json\r\n{\"a\":1}\r\n```"), Ok("{\"a\":1}".to_string()));
    assert_eq!(extract_json_block("```\n{}\n   ```"), Some("{}".to_string()));
}

#[test]
fn empty_fence_is_missing_payload() {
    assert_eq!(extract_json("```json"), Err(PayloadError::MissingPayload));
    assert_eq!(extract_json("  ```  "), Err(PayloadError::MissingPayload));
}

#[test]
fn fence_with_only_closing_line_gives_empty_payload() {
    assert_eq!(extract_json("```\n```"), Ok(String::new()));
}

#[test]
fn block_needs_an_opening_fence() {
    assert_eq!(extract_json_block("{\"a\":1}\n```"), None);
    assert_eq!(extract_json_block(""), None);
}
