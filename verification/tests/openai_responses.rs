use jyc_agent::json::{parse_json, Json};
use jyc_agent::provider::normalize::anthropic_to_chat_messages;
use jyc_agent::provider::openai_responses::{
    chat_messages_to_responses_input, message_to_responses_input, next_responses_step,
    parse_responses_event, OpenAiResponsesProvider, ResponsesStreamState,
};
use jyc_agent::provider::stream::{SseItem, StreamStep};
use jyc_agent::types::{ContentBlock, Message, Role, StreamEvent};

fn json(text: &str) -> Json {
    parse_json(text).unwrap()
}

/// The document at a path of names and indices, or null.
fn pick<'a>(json: &'a Json, path: &str) -> &'a Json {
    let mut at = json;
    for step in path.split('/') {
        at = match step.parse::<usize>() {
            Ok(i) => at.as_array().and_then(|items| items.get(i)),
            Err(_) => at.get(step),
        }
        .unwrap_or(&Json::Null);
    }
    at
}

fn shown(items: &[Json]) -> Vec<String> {
    items.iter().map(|item| item.to_text()).collect()
}

#[test]
fn parse_output_text_delta() {
    let mut state = ResponsesStreamState::default();
    let event = json(r#"{ "type": "response.output_text.delta", "delta": "Hello" }"#);
    let events = parse_responses_event(&event.to_text(), &mut state).unwrap();
    assert!(matches!(&events[0], StreamEvent::TextDelta(t) if t == "Hello"));
}

#[test]
fn parse_completed_emits_usage_and_done() {
    let mut state = ResponsesStreamState::default();
    let event = json(r#"{ "type": "response.completed", "response": { "usage": { "input_tokens": 100, "output_tokens": 50, "input_tokens_details": { "cached_tokens": 40 }, "output_tokens_details": { "reasoning_tokens": 20 } } } }"#);
    let events = parse_responses_event(&event.to_text(), &mut state).unwrap();
    assert!(events.iter().any(|e| matches!(
        e,
        StreamEvent::Usage {
            input_tokens: 100,
            output_tokens: 50,
            cache_hit_tokens: 40,
            reasoning_tokens: 20,
            ..
        }
    )));
    assert!(events.iter().any(|e| matches!(e, StreamEvent::Done)));
    let events2 = parse_responses_event(&event.to_text(), &mut state).unwrap();
    assert!(!events2.iter().any(|e| matches!(e, StreamEvent::Done)));
}

#[test]
fn parse_reasoning_summary_delta() {
    let mut state = ResponsesStreamState::default();
    let event = json(r#"{ "type": "response.reasoning_summary_text.delta", "delta": "Comparing the two numbers…" }"#);
    let events = parse_responses_event(&event.to_text(), &mut state).unwrap();
    assert!(
        matches!(&events[0], StreamEvent::ReasoningDelta(t) if t == "Comparing the two numbers…")
    );
}

#[test]
fn parse_function_call_streaming_sequence() {
    let mut state = ResponsesStreamState::default();

    let added = json(r#"{ "type": "response.output_item.added", "item": { "type": "function_call", "call_id": "call_1", "name": "read" } }"#);
    let events = parse_responses_event(&added.to_text(), &mut state).unwrap();
    assert!(matches!(
        &events[0],
        StreamEvent::ToolUseStart { id, name } if id == "call_1" && name == "read"
    ));

    let delta = json(r#"{ "type": "response.function_call_arguments.delta", "item_id": "fc_1", "delta": "{\"path\":" }"#);
    let events = parse_responses_event(&delta.to_text(), &mut state).unwrap();
    assert!(matches!(&events[0], StreamEvent::ToolInputDelta(d) if d == "{\"path\":"));
    let args_done = json(r#"{ "type": "response.function_call_arguments.done", "item_id": "fc_1", "arguments": "{\"path\":\"a\"}" }"#);
    assert!(parse_responses_event(&args_done.to_text(), &mut state).is_none());

    let item_done = json(r#"{ "type": "response.output_item.done", "item": { "type": "function_call", "call_id": "call_1", "name": "read", "arguments": "{\"path\":\"a\"}" } }"#);
    let events = parse_responses_event(&item_done.to_text(), &mut state).unwrap();
    assert!(matches!(&events[0], StreamEvent::ToolUseEnd));
    let events = parse_responses_event(&item_done.to_text(), &mut state);
    assert!(events.is_none());
}

#[test]
fn parse_failed_emits_error() {
    let mut state = ResponsesStreamState::default();
    let event = json(r#"{ "type": "response.failed", "response": { "error": { "message": "model overloaded" } } }"#);
    let events = parse_responses_event(&event.to_text(), &mut state).unwrap();
    assert!(matches!(&events[0], StreamEvent::Error(m) if m == "model overloaded"));
}

#[test]
fn unknown_events_ignored() {
    let mut state = ResponsesStreamState::default();
    for ty in [
        "response.created",
        "response.in_progress",
        "response.content_part.added",
        "response.output_text.done",
        "response.reasoning_summary_part.added",
    ] {
        let event = Json::object().with("type", Json::text(ty));
        assert!(parse_responses_event(&event.to_text(), &mut state).is_none());
    }
}

#[test]
fn convert_chat_user_string_content() {
    let msgs = vec![json(r#"{"role": "user", "content": "hello"}"#)];
    let input = chat_messages_to_responses_input(&msgs);
    assert_eq!(shown(&input), shown(&[json(r#"{ "type": "message", "role": "user", "content": [{ "type": "input_text", "text": "hello" }] }"#)]));
}

#[test]
fn convert_chat_assistant_with_tool_calls_and_results() {
    let msgs = vec![
        json(r#"{ "role": "assistant", "content": null, "tool_calls": [{ "id": "call_1", "type": "function", "function": {"name": "read", "arguments": "{\"path\":\"a\"}"} }] }"#),
        json(r#"{ "role": "tool", "tool_call_id": "call_1", "content": "[SUCCESS] file body" }"#),
    ];
    let input = chat_messages_to_responses_input(&msgs);
    assert_eq!(shown(&input), shown(&[
            json(r#"{ "type": "function_call", "call_id": "call_1", "name": "read", "arguments": "{\"path\":\"a\"}" }"#),
            json(r#"{ "type": "function_call_output", "call_id": "call_1", "output": "[SUCCESS] file body" }"#),
        ]));
}

#[test]
fn convert_chat_drops_reasoning_content() {
    let msgs = vec![json(r#"{ "role": "assistant", "content": "answer", "reasoning_content": "thinking..." }"#)];
    let input = chat_messages_to_responses_input(&msgs);
    assert_eq!(input.len(), 1);
    assert!(input[0].get("reasoning_content").is_none());
}

#[test]
fn message_to_input_expands_assistant_tool_use() {
    let msg = Message {
        role: Role::Assistant,
        content: vec![
            ContentBlock::Text {
                text: "checking".into(),
            },
            ContentBlock::ToolUse {
                id: "call_9".into(),
                name: "bash".into(),
                input: json(r#"{"command": "ls"}"#),
            },
        ],
    };
    let items = message_to_responses_input(&msg);
    assert_eq!(items.len(), 2);
    assert_eq!(pick(&items[0], "role").as_str(), Some("assistant"));
    assert_eq!(pick(&items[0], "content/0/type").as_str(), Some("output_text"));
    assert_eq!(pick(&items[1], "type").as_str(), Some("function_call"));
    assert_eq!(pick(&items[1], "call_id").as_str(), Some("call_9"));
    assert_eq!(pick(&items[1], "arguments").as_str(), Some("{\"command\":\"ls\"}"));
}

#[test]
fn the_request_holds_the_conversation() {
    let p = OpenAiResponsesProvider::new("https://api.example.com/", "test", Some("k"), None, false, None);
    assert_eq!(p.url(), "https://api.example.com/responses");
    let body = p.complete_body(&[Message::user("hello")], &[], "be brief");
    assert_eq!(pick(&body, "model").as_str(), Some("test"));
    assert_eq!(pick(&body, "instructions").as_str(), Some("be brief"));
    assert_eq!(pick(&body, "input/0/content/0/text").as_str(), Some("hello"));
}

#[test]
fn a_stream_that_ends_is_done_once() {
    let mut state = ResponsesStreamState::default();
    let completed = r#"{"type":"response.completed","response":{}}"#;
    let mut done = 0;
    for item in [
        SseItem::Message(completed.to_string()),
        SseItem::Message(completed.to_string()),
        SseItem::Ended,
    ] {
        if next_responses_step(item, &mut state) == StreamStep::Yield(StreamEvent::Done) {
            done += 1;
        }
    }
    assert_eq!(done, 1);
}

#[test]
fn kept_reasoning_is_not_sent_again() {
    let plain = json(r#"{"role": "assistant", "content": "hi"}"#);
    let thoughtful = plain.clone().with("reasoning_content", Json::text("hm"));
    let shown = |message: &Json| -> Vec<String> {
        chat_messages_to_responses_input(std::slice::from_ref(message))
            .iter()
            .map(|item| item.to_text())
            .collect()
    };
    assert_eq!(shown(&thoughtful), shown(&plain));
    assert_eq!(shown(&plain).len(), 1);
}

#[test]
fn conversations_of_the_messages_api_are_sent_too() {
    let kept = [
        json(r#"{"role": "user", "content": [{"type": "text", "text": "look"}, {"type": "image", "source": {"type": "base64", "media_type": "image/png", "data": "aGk="}}]}"#),
        json(r#"{"role": "assistant", "content": [{"type": "text", "text": "calling"}, {"type": "tool_use", "id": "t1", "name": "bash", "input": {"command": "ls"}}]}"#),
        json(r#"{"role": "user", "content": [{"type": "tool_result", "tool_use_id": "t1", "content": "ok", "is_error": true}, {"type": "text", "text": "go on"}]}"#),
        json(r#"{"role": "assistant", "content": [{"type": "text", "text": "done"}]}"#),
    ];
    let converted = anthropic_to_chat_messages(&kept);
    assert_eq!(converted.len(), 5);
    assert_eq!(pick(&converted[0], "content/1/image_url/url").as_str(), Some("data:image/png;base64,aGk="));
    assert_eq!(pick(&converted[1], "tool_calls/0/id").as_str(), Some("t1"));
    assert_eq!(
        pick(&converted[1], "tool_calls/0/function/arguments").as_str(),
        Some(r#"{"command":"ls"}"#)
    );
    assert_eq!(converted[1].get_str("content"), Some("calling"));
    assert_eq!(converted[2].get_str("tool_call_id"), Some("t1"));
    assert_eq!(converted[2].get_str("content"), Some("[ERROR] ok"));
    assert_eq!(pick(&converted[3], "content/0/text").as_str(), Some("go on"));
    assert_eq!(converted[4].get_str("content"), Some("done"));
    assert_eq!(shown(&anthropic_to_chat_messages(&converted)), shown(&converted));

    let provider = OpenAiResponsesProvider::new("https://r", "m", None, None, true, None);
    let body = provider.complete_raw_body(&kept, &[], "");
    let kinds: Vec<&str> = body
        .get_array("input")
        .unwrap()
        .iter()
        .filter_map(|item| item.get_str("type"))
        .collect();
    assert_eq!(
        kinds,
        vec!["message", "message", "function_call", "function_call_output", "message", "message"]
    );
}

#[test]
fn the_events_of_an_answer_are_in_balance() {
    let mut state = ResponsesStreamState::default();
    let mut starts = 0;
    let mut ends = 0;
    let mut done = 0;
    for data in [
        r#"{"type": "response.output_item.done", "item": {"type": "function_call"}}"#,
        r#"{"type": "response.output_item.added", "item": {"type": "function_call", "call_id": "1", "name": "bash"}}"#,
        r#"{"type": "response.output_item.added", "item": {"type": "function_call", "call_id": "2", "name": "read"}}"#,
        r#"{"type": "response.output_item.done", "item": {"type": "function_call"}}"#,
        r#"{"type": "response.completed"}"#,
        r#"{"type": "response.output_item.done", "item": {"type": "function_call"}}"#,
        r#"{"type": "response.output_item.done", "item": {"type": "function_call"}}"#,
        r#"{"type": "response.completed"}"#,
    ] {
        for event in parse_responses_event(data, &mut state).unwrap_or_default() {
            match event {
                StreamEvent::ToolUseStart { .. } => starts += 1,
                StreamEvent::ToolUseEnd => ends += 1,
                StreamEvent::Done => done += 1,
                _ => {}
            }
        }
        assert!(ends <= starts);
        assert_eq!(starts, ends + state.open_function_calls);
    }
    assert_eq!((starts, ends, done), (2, 2, 1));
    for data in ["no json", r#"{"type": "response.unheard_of"}"#, "{}"] {
        assert!(parse_responses_event(data, &mut state).is_none());
    }
    assert_eq!(state.open_function_calls, 0);
}

#[test]
fn conversations_are_sent_one_after_the_other() {
    let msgs = [
        json(r#"{"role": "user", "content": "u"}"#),
        json(
            r#"{"role": "assistant", "content": "a", "reasoning_content": "r", "tool_calls": [
                {"id": "1", "function": {"name": "bash", "arguments": "{}"}},
                {"id": "", "function": {"name": "bash"}},
                {"id": "2", "function": {"name": "read"}}]}"#,
        ),
        json(r#"{"role": "tool", "tool_call_id": "1", "content": "out"}"#),
        json(r#"{"role": "tool", "tool_call_id": "", "content": "lost"}"#),
    ];
    let all = shown(&chat_messages_to_responses_input(&msgs));
    for cut in 0..=msgs.len() {
        let mut parts = shown(&chat_messages_to_responses_input(&msgs[..cut]));
        parts.extend(shown(&chat_messages_to_responses_input(&msgs[cut..])));
        assert_eq!(parts, all);
    }
    assert_eq!(all.len(), 5);
    assert!(all.iter().all(|item| !item.contains("reasoning_content")));
    assert!(all[1].contains("output_text"));
    assert!(all[2].contains(r#""call_id":"1""#));
    assert!(all[3].contains(r#""call_id":"2""#));
    assert!(all[4].contains("function_call_output"));
}
