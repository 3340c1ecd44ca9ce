use jyc_agent::agent_loop::response::{
    check_response, collect_response, looks_like_leak_in_mixed_response,
    looks_like_leaked_tool_call, parse_arguments, stream_timed_out, thinking_due, CollectStep,
    CollectedResponse, Collector, ToolCall,
};
use jyc_agent::types::{ContentBlock, Role, StreamEvent};

fn ok(events: Vec<StreamEvent>) -> Vec<Result<StreamEvent, String>> {
    events.into_iter().map(Ok).collect()
}

fn start(id: &str, name: &str) -> StreamEvent {
    StreamEvent::ToolUseStart {
        id: id.to_string(),
        name: name.to_string(),
    }
}

fn text(s: &str) -> StreamEvent {
    StreamEvent::TextDelta(s.to_string())
}

fn input(s: &str) -> StreamEvent {
    StreamEvent::ToolInputDelta(s.to_string())
}

fn usage(input_tokens: u64, output_tokens: u64) -> StreamEvent {
    StreamEvent::Usage {
        input_tokens,
        output_tokens,
        cache_hit_tokens: 0,
        cache_creation_tokens: 0,
        reasoning_tokens: 1,
    }
}

fn answer(text: &str, calls: &[(&str, &str, &str)]) -> CollectedResponse {
    CollectedResponse {
        text: text.to_string(),
        reasoning_content: String::new(),
        tool_calls: calls
            .iter()
            .map(|(id, name, arguments)| ToolCall {
                id: id.to_string(),
                name: name.to_string(),
                arguments: arguments.to_string(),
            })
            .collect(),
        input_tokens: 0,
        output_tokens: 0,
        cache_hit_tokens: 0,
        cache_creation_tokens: 0,
        reasoning_tokens: 0,
    }
}

#[test]
fn done_stream_collects_text_and_tool_calls() {
    let r = collect_response(ok(vec![
        text("hello "),
        start("1", "bash"),
        input("{\"a\":1}"),
        StreamEvent::ToolUseEnd,
        StreamEvent::Usage {
            input_tokens: 10,
            output_tokens: 5,
            cache_hit_tokens: 0,
            cache_creation_tokens: 0,
            reasoning_tokens: 0,
        },
        StreamEvent::Done,
    ]))
    .expect("stream with Done marker must collect");
    assert_eq!(r.text, "hello ");
    assert_eq!(r.tool_calls.len(), 1);
    assert_eq!(r.tool_calls[0].name, "bash");
}

#[test]
fn eof_without_done_marker_is_rejected() {
    let err = collect_response(ok(vec![text("half a sentence ")]))
        .expect_err("EOF without Done must fail");
    assert!(
        err.contains("stream ended"),
        "error should match the transient retry patterns, got: {err}"
    );
}

#[test]
fn a_call_that_begins_closes_the_one_before() {
    let r = collect_response(ok(vec![
        start("1", "read"),
        input("{}"),
        start("2", "bash"),
        input("{\"c\":"),
        input("1}"),
        StreamEvent::Done,
        text("never read"),
    ]))
    .unwrap();
    assert_eq!(r.tool_calls.len(), 2);
    assert_eq!(r.tool_calls[0].id, "1");
    assert_eq!(r.tool_calls[0].arguments, "{}");
    assert_eq!(r.tool_calls[1].name, "bash");
    assert_eq!(r.tool_calls[1].arguments, "{\"c\":1}");
    assert_eq!(r.text, "");
}

#[test]
fn counts_of_the_answer_add_up() {
    let r = collect_response(ok(vec![usage(10, 5), usage(12, 7), StreamEvent::Done])).unwrap();
    assert_eq!(r.input_tokens, 12);
    assert_eq!(r.output_tokens, 12);
    assert_eq!(r.reasoning_tokens, 2);
}

#[test]
fn errors_of_a_stream_are_handed_on() {
    let err = collect_response(ok(vec![StreamEvent::Error("overloaded".to_string())])).unwrap_err();
    assert_eq!(err, "LLM error: overloaded");
    let err = collect_response(vec![Ok(text("a")), Err("reset".to_string())]).unwrap_err();
    assert_eq!(err, "reset");
}

#[test]
fn a_collector_tells_what_an_event_means() {
    let mut c = Collector::default();
    assert_eq!(c.on_event(text("a")), CollectStep::More);
    assert_eq!(
        c.on_event(StreamEvent::ReasoningDelta("why".to_string())),
        CollectStep::More
    );
    assert_eq!(c.on_event(StreamEvent::Done), CollectStep::Complete);
    let r = c.finish(true).unwrap();
    assert_eq!(r.text, "a");
    assert_eq!(r.reasoning_content, "why");
    assert!(Collector::default().finish(false).is_err());
}

#[test]
fn an_answer_as_a_message() {
    let message = answer("hi", &[("1", "bash", "{\"a\":1}"), ("2", "read", "oops")]).to_message();
    assert_eq!(message.role, Role::Assistant);
    assert_eq!(message.content.len(), 3);
    match &message.content[1] {
        ContentBlock::ToolUse { id, name, input } => {
            assert_eq!(id, "1");
            assert_eq!(name, "bash");
            assert_eq!(input.to_text(), "{\"a\":1}");
        }
        _ => panic!("a tool call expected"),
    }
    match &message.content[2] {
        ContentBlock::ToolUse { input, .. } => assert_eq!(input.to_text(), "{}"),
        _ => panic!("a tool call expected"),
    }
    assert!(answer("", &[]).to_message().content.is_empty());
    assert_eq!(parse_arguments("[1]").to_text(), "[1]");
}

#[test]
fn leaked_tool_call_detection() {
    assert!(looks_like_leaked_tool_call(
        "<response tools=\"<call tool=\"bash\""
    ));
    assert!(looks_like_leaked_tool_call(
        "  \n\t<call tool=\"bash\" index=\"1\">"
    ));
    assert!(looks_like_leaked_tool_call("</call> trailing"));
    assert!(!looks_like_leaked_tool_call(
        "看日志：\n<call tool=\"bash\" index=\"1\">"
    ));
    assert!(!looks_like_leaked_tool_call(
        "比如 `<parameter name=\"command\">` 这种写法。"
    ));
    assert!(!looks_like_leaked_tool_call("普通回复，没有工具调用语法。"));
    assert!(!looks_like_leaked_tool_call(""));
}

#[test]
fn a_storm_of_openers_beside_calls_is_a_leak() {
    let storm = format!("先说结论。\n{}", "<response_tools>\n".repeat(6));
    assert!(looks_like_leak_in_mixed_response(&storm));
    assert!(looks_like_leak_in_mixed_response("x </call> y"));
    assert!(!looks_like_leak_in_mixed_response("比如 `<call tool=` 这种写法。"));
    assert!(!looks_like_leak_in_mixed_response("<invoke <invoke"));
    assert!(looks_like_leak_in_mixed_response("<invoke <invoke <invoke"));
}

#[test]
fn mixed_leak_with_valid_tool_calls_is_retried() {
    let storm = format!("先说结论。\n{}", "<response_tools>\n".repeat(6));
    let err = check_response(answer(&storm, &[("1", "bash", "{}")])).unwrap_err();
    assert_eq!(
        err,
        "provider format failure: model emitted tool-call syntax as text"
    );
}

#[test]
fn mixed_mode_single_marker_quote_is_not_flagged() {
    let quoting = answer("<call tool= 这种写法是错的。", &[("1", "bash", "{}")]);
    let r = check_response(quoting).expect("single marker quote in mixed mode must pass");
    assert_eq!(r.tool_calls.len(), 1);
    assert_eq!(r.tool_calls[0].name, "bash");
}

#[test]
fn leaked_tool_call_syntax_is_retried_then_succeeds() {
    assert!(check_response(answer("<call tool=\"bash\">", &[])).is_err());
    assert_eq!(check_response(answer("ok", &[])).unwrap().text, "ok");
}

#[test]
fn empty_name_tool_call_is_retried_then_succeeds() {
    assert!(check_response(answer("先说结论。", &[("1", "", "{}")])).is_err());
    assert!(check_response(answer("先说结论。", &[("1", " ", "{}")])).is_err());
    assert_eq!(check_response(answer("ok", &[])).unwrap().text, "ok");
}

#[test]
fn reasoning_is_shown_at_intervals() {
    assert!(thinking_due(true, None));
    assert!(!thinking_due(true, Some(499)));
    assert!(thinking_due(true, Some(500)));
    assert!(!thinking_due(false, None));
}

#[test]
fn a_silent_stream_times_out() {
    assert_eq!(stream_timed_out(120), "SSE stream timed out: no events for 120s");
}
