use jyc_agent::json::{parse_json, Json};
use jyc_agent::provider::messages::{
    extract_tool_call_ids, filter_valid_messages, repair_dangling_tool_calls,
};

fn json(text: &str) -> Json {
    parse_json(text).unwrap()
}

#[test]
fn openai_complete_context_not_modified() {
    let msgs = vec![
        json(r#"{"role": "user", "content": "hello"}"#),
        json(r#"{"role": "assistant", "content": "", "tool_calls": [{"id": "call_1", "type": "function", "function": {"name": "bash", "arguments": "{}"}}]}"#),
        json(r#"{"role": "tool", "tool_call_id": "call_1", "content": "ok"}"#),
        json(r#"{"role": "assistant", "content": "done"}"#),
    ];
    let result = filter_valid_messages(&msgs);
    assert_eq!(result.len(), 4, "complete context should be unchanged");
}

#[test]
fn openai_dangling_tool_call_dropped() {
    let msgs = vec![
        json(r#"{"role": "user", "content": "hello"}"#),
        json(r#"{"role": "assistant", "content": "working", "tool_calls": [{"id": "bash:57", "type": "function", "function": {"name": "bash", "arguments": "{}"}}]}"#),
        json(r#"{"role": "assistant", "content": "this should also be dropped"}"#),
    ];
    let result = filter_valid_messages(&msgs);
    assert_eq!(
        result.len(),
        1,
        "dangling assistant + subsequent should be dropped"
    );
    assert_eq!(result[0].get("role").and_then(|r| r.as_str()), Some("user"));
}

#[test]
fn openai_partial_tool_results_dropped() {
    let msgs = vec![
        json(r#"{"role": "user", "content": "hello"}"#),
        json(r#"{"role": "assistant", "content": "", "tool_calls": [ {"id": "call_1", "type": "function", "function": {"name": "bash", "arguments": "{}"}}, {"id": "call_2", "type": "function", "function": {"name": "read", "arguments": "{}"}} ]}"#),
        json(r#"{"role": "tool", "tool_call_id": "call_1", "content": "ok"}"#),
    ];
    let result = filter_valid_messages(&msgs);
    assert_eq!(result.len(), 1, "partial results → assistant dropped");
}

#[test]
fn openai_all_tool_results_present_kept() {
    let msgs = vec![
        json(r#"{"role": "user", "content": "hello"}"#),
        json(r#"{"role": "assistant", "content": "", "tool_calls": [ {"id": "call_1", "type": "function", "function": {"name": "bash", "arguments": "{}"}}, {"id": "call_2", "type": "function", "function": {"name": "read", "arguments": "{}"}} ]}"#),
        json(r#"{"role": "tool", "tool_call_id": "call_1", "content": "ok"}"#),
        json(r#"{"role": "tool", "tool_call_id": "call_2", "content": "file content"}"#),
        json(r#"{"role": "assistant", "content": "done"}"#),
    ];
    let result = filter_valid_messages(&msgs);
    assert_eq!(result.len(), 5, "complete context should be unchanged");
}

#[test]
fn no_tool_calls_not_affected() {
    let msgs = vec![
        json(r#"{"role": "user", "content": "hello"}"#),
        json(r#"{"role": "assistant", "content": "hi there"}"#),
        json(r#"{"role": "user", "content": "bye"}"#),
    ];
    let result = filter_valid_messages(&msgs);
    assert_eq!(result.len(), 3);
}

#[test]
fn multiple_assistant_messages_only_dangling_dropped() {
    let msgs = vec![
        json(r#"{"role": "user", "content": "task"}"#),
        json(r#"{"role": "assistant", "content": "", "tool_calls": [{"id": "call_1", "type": "function", "function": {"name": "bash", "arguments": "{}"}}]}"#),
        json(r#"{"role": "tool", "tool_call_id": "call_1", "content": "ok"}"#),
        json(r#"{"role": "assistant", "content": "", "tool_calls": [{"id": "call_2", "type": "function", "function": {"name": "bash", "arguments": "{}"}}]}"#),
        json(r#"{"role": "assistant", "content": "should be dropped"}"#),
    ];
    let result = filter_valid_messages(&msgs);
    assert_eq!(
        result.len(),
        3,
        "first assistant kept, dangling + after dropped"
    );
    assert!(result[1].get("tool_calls").is_some());
    assert_eq!(
        result[2].get("tool_call_id").and_then(|t| t.as_str()),
        Some("call_1")
    );
}

#[test]
fn extract_ids_openai_format() {
    let msg = json(r#"{"role": "assistant", "tool_calls": [ {"id": "call_a", "type": "function", "function": {"name": "bash", "arguments": "{}"}}, {"id": "call_b", "type": "function", "function": {"name": "read", "arguments": "{}"}} ]}"#);
    let ids = extract_tool_call_ids(&msg);
    assert_eq!(ids, vec!["call_a", "call_b"]);
}

#[test]
fn extract_ids_anthropic_format() {
    let msg = json(r#"{"role": "assistant", "content": [ {"type": "text", "text": "thinking..."}, {"type": "tool_use", "id": "toolu_1", "name": "bash", "input": {}} ]}"#);
    let ids = extract_tool_call_ids(&msg);
    assert_eq!(ids, vec!["toolu_1"]);
}

#[test]
fn extract_ids_no_tool_calls() {
    let msg = json(r#"{"role": "assistant", "content": "just text"}"#);
    let ids = extract_tool_call_ids(&msg);
    assert!(ids.is_empty());
}

fn shown(items: &[Json]) -> Vec<String> {
    items.iter().map(|item| item.to_text()).collect()
}

#[test]
fn repairing_twice_changes_nothing() {
    let msgs = || {
        vec![
            json(r#"{"role": "user", "content": "task"}"#),
            json(r#"{"role": "assistant", "content": [{"type": "tool_use", "id": "t1", "name": "bash", "input": {}}]}"#),
            json(r#"{"role": "user", "content": [{"type": "tool_result", "tool_use_id": "t1", "content": "ok"}]}"#),
            json(r#"{"role": "assistant", "tool_calls": [{"id": "c1"}]}"#),
        ]
    };
    let once = repair_dangling_tool_calls(msgs());
    assert_eq!(once.len(), 3);
    let kept = shown(&once);
    assert_eq!(shown(&repair_dangling_tool_calls(once)), kept);
    assert_eq!(kept, shown(&msgs()[..3]));
}

#[test]
fn empty_answers_are_not_sent_again() {
    let msgs = [
        json(r#"{"role": "assistant", "content": ""}"#),
        json(r#"{"role": "assistant", "content": [{"type": "text", "text": ""}]}"#),
        json(r#"{"role": "assistant", "content": null, "reasoning_content": "hm"}"#),
        json(r#"{"role": "user", "content": ""}"#),
    ];
    assert_eq!(filter_valid_messages(&msgs).len(), 1);
}
