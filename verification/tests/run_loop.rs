use jyc_agent::agent_loop::context::{
    build_send_context_with_regions, ContextStrategy, ContextStrategyConfig,
};
use jyc_agent::agent_loop::embedded_ask::{find_embedded_ask, strip_tags};
use jyc_agent::agent_loop::response::{CollectedResponse, ToolCall};
use jyc_agent::agent_loop::run::{
    ask_input, is_suppressed, no_reply_message, shown_output, AnswerStep, LoopState, NextStep,
    AUTO_DELIVERED, COMPACT_PAIRS, DEFAULT_MAX_ITERATIONS, MAX_EMPTY_TOOL_CALL_ITERATIONS,
    REPLY_TOOL,
};
use jyc_agent::json::{parse_json, Json};
use jyc_agent::provider::anthropic::AnthropicProvider;
use jyc_agent::provider::messages::filter_valid_messages;
use jyc_agent::provider::openai_compat::OpenAiCompatProvider;
use jyc_agent::provider::select::AnyProvider;
use jyc_agent::types::{ContentBlock, ImageSource, Message, ToolDefinition};

fn json(text: &str) -> Json {
    parse_json(text).unwrap()
}

fn prov() -> AnyProvider {
    AnyProvider::OpenAiCompat(OpenAiCompatProvider::new("https://o", "m", None, None, true, None))
}

fn anthropic() -> AnyProvider {
    AnyProvider::Anthropic(AnthropicProvider::new("https://a", "m", None, None, true, None, false))
}

fn start(provider: &AnyProvider, max_iterations: Option<usize>) -> LoopState {
    let said = vec![ContentBlock::Text { text: "do it".to_string() }];
    LoopState::start(provider, vec![], vec![], said, max_iterations, false)
}

fn start_with_reply_tool(provider: &AnyProvider) -> LoopState {
    let said = vec![ContentBlock::Text { text: "do it".to_string() }];
    LoopState::start(provider, vec![], vec![], said, None, true)
}

fn answer(text: &str) -> CollectedResponse {
    CollectedResponse {
        text: text.to_string(),
        reasoning_content: String::new(),
        tool_calls: vec![],
        input_tokens: 10,
        output_tokens: 2,
        cache_hit_tokens: 3,
        cache_creation_tokens: 1,
        reasoning_tokens: 1,
    }
}

fn call(id: &str, name: &str, arguments: &str) -> ToolCall {
    ToolCall { id: id.to_string(), name: name.to_string(), arguments: arguments.to_string() }
}

fn calling(text: &str, calls: Vec<ToolCall>) -> CollectedResponse {
    CollectedResponse { tool_calls: calls, ..answer(text) }
}

#[test]
fn no_reply_emits_event_and_exits_without_reminder() {
    let provider = prov();
    let mut state = start(&provider, None);
    assert_eq!(state.next_step(false), NextStep::CallModel);
    let sent = state.raw_context.len();
    match state.on_answer(&provider, answer("")) {
        AnswerStep::Finish { text, reply, no_reply } => {
            assert!(text.is_empty(), "no text should be produced");
            assert!(reply.is_none(), "nothing was delivered (no text produced)");
            assert!(no_reply);
        }
        other => panic!("expected the end, got {other:?}"),
    }
    assert_eq!(state.raw_context.len(), sent);
    assert!(no_reply_message(0).contains("user will see no reply"));
    let end = state.finish(String::new(), false);
    assert!(end.success);
    assert_eq!(end.result.text, "", "no text should be produced");
    assert!(!end.result.reply_delivered);
}

#[test]
fn the_final_text_is_the_reply() {
    let provider = prov();
    let mut state = start(&provider, None);
    match state.on_answer(&provider, answer("Here is the final answer.")) {
        AnswerStep::Finish { text, reply, no_reply } => {
            assert_eq!(text, "Here is the final answer.");
            assert_eq!(reply.as_deref(), Some("Here is the final answer."));
            assert!(!no_reply);
        }
        other => panic!("expected the end, got {other:?}"),
    }
    let result = state.finish("Here is the final answer.".to_string(), true).result;
    assert!(!result.reply_sent_by_tool);
    assert!(!result.reply_auto_delivered);
    assert_eq!(result.reply_text_from_tool, None);
    assert_eq!(result.text, "Here is the final answer.");
    assert!(result.reply_delivered);
    assert_eq!(result.history.len(), 2);
    assert!(is_suppressed("reply suppressed by reply_send hook: quiet"));
    assert!(!is_suppressed("connection reset"));
}

#[test]
fn a_malformed_tag_is_not_delivered() {
    let provider = prov();
    let mut state = start(&provider, None);
    match state.on_answer(&provider, answer("结论先行。\n\n<ask_user options=\"a, b\">")) {
        AnswerStep::Finish { text, reply, .. } => {
            assert_eq!(text, "结论先行。");
            assert_eq!(reply.as_deref(), Some("结论先行。"));
        }
        other => panic!("expected the end, got {other:?}"),
    }
}

#[test]
fn a_written_question_is_asked_after_its_prose() {
    let provider = prov();
    let mut state = start(&provider, None);
    let prose = "## 方案\n\n改动 1、2、3。";
    let tag = "<ask_user question=\"开工吗？\" options=\"按方案, 再想想\" timeout_seconds=\"60\">";
    match state.on_answer(&provider, answer(&format!("{prose}\n\n{tag}"))) {
        AnswerStep::Ask { prose: told, deliver, question, options, timeout_secs } => {
            assert_eq!(told, prose);
            assert!(deliver);
            assert!(!told.contains("<ask_user"));
            assert_eq!(question, "开工吗？");
            assert_eq!(options, vec!["按方案", "再想想"]);
            assert_eq!(timeout_secs, Some(60));
            let input = ask_input(&question, &options, timeout_secs);
            assert_eq!(
                input.to_text(),
                r#"{"options":["按方案","再想想"],"question":"开工吗？","timeout_seconds":60}"#
            );
        }
        other => panic!("expected a question, got {other:?}"),
    }
    state.on_embedded_answer(&provider, "按方案", false);
    let last = &state.raw_context[state.raw_context.len() - 1];
    assert_eq!(last.get_str("role"), Some("tool"));
    assert!(last.get_str("content").unwrap().contains("按方案"));
    assert_eq!(last.get_str("tool_call_id"), Some("embedded-ask-user"));
    assert!(matches!(
        state.on_answer(&provider, answer("收到，按方案开工。")),
        AnswerStep::Finish { reply: Some(_), .. }
    ));
}

const ASKED: &str =
    "{\"question\":\"开工吗？\",\"options\":[\"按方案\",\"再想想\"],\"timeout_seconds\":60}";

#[test]
fn native_ask_delivers_narration_before_question() {
    let provider = prov();
    let mut state = start_with_reply_tool(&provider);
    let response = calling("方案如下，请定夺。", vec![call("ask-1", "ask_user", ASKED)]);
    match state.on_answer(&provider, response) {
        AnswerStep::RunTools { narration, calls, browses } => {
            assert_eq!(narration.as_deref(), Some("方案如下，请定夺。"));
            assert_eq!(calls.len(), 1);
            assert!(!browses);
        }
        other => panic!("expected tools, got {other:?}"),
    }
    state.on_tool_output(&provider, &call("ask-1", "ask_user", ASKED), "按方案", false);
    conclude(state, &provider);
}

/// The conclusion after the answer is delivered by the loop.
fn conclude(mut state: LoopState, provider: &AnyProvider) {
    match state.on_answer(provider, answer("收到，按方案开工。")) {
        AnswerStep::Finish { text, reply, .. } => {
            assert_eq!(reply.as_deref(), Some("收到，按方案开工。\n\n— auto-delivered"));
            let result = state.finish(text, true).result;
            assert!(result.reply_auto_delivered, "the post-answer conclusion must auto-deliver");
            assert_eq!(
                result.reply_text_from_tool.as_deref(),
                Some("收到，按方案开工。\n\n— auto-delivered")
            );
        }
        other => panic!("expected the end, got {other:?}"),
    }
}

#[test]
fn native_ask_strips_embedded_tag_from_narration() {
    let provider = prov();
    let mut state = start_with_reply_tool(&provider);
    let text = "方案如下。<ask_user question=\"泄漏的 tag\" options=\"x, y\">";
    match state.on_answer(&provider, calling(text, vec![call("ask-1", "ask_user", ASKED)])) {
        AnswerStep::RunTools { narration, calls, .. } => {
            assert_eq!(narration.as_deref(), Some("方案如下。"));
            assert_eq!(calls.len(), 1);
        }
        other => panic!("expected tools, got {other:?}"),
    }
    state.on_tool_output(&provider, &call("ask-1", "ask_user", ASKED), "按方案", false);
    conclude(state, &provider);
}

#[test]
fn no_tag_is_told() {
    let provider = prov();
    for text in [
        "A<ask_user><ask_user>",
        "A<ask_user question=\"q\" options=\"x\"> <ask_user options=\"y\">",
        "A <ask_user <ask_user> >",
        "<ask_user question=\"q\" options=\"x, y\">A<ask_user",
    ] {
        assert!(find_embedded_ask(&strip_tags(text)).is_none(), "left in {text}");
        let mut state = start_with_reply_tool(&provider);
        match state.on_answer(&provider, calling(text, vec![call("1", "ask_user", ASKED)])) {
            AnswerStep::RunTools { narration: Some(told), .. } => {
                assert!(find_embedded_ask(&told).is_none(), "told: {told}")
            }
            other => panic!("expected tools, got {other:?}"),
        }
        match start_with_reply_tool(&provider).on_answer(&provider, answer(text)) {
            AnswerStep::Ask { prose, .. } => {
                assert!(find_embedded_ask(&prose).is_none(), "told: {prose}")
            }
            AnswerStep::Finish { text, reply, .. } => {
                assert!(find_embedded_ask(&text).is_none(), "kept: {text}");
                assert!(reply.map_or(true, |reply| find_embedded_ask(&reply).is_none()));
            }
            other => panic!("expected a question or the end, got {other:?}"),
        }
    }
    assert_eq!(strip_tags("plain"), "plain");
}

#[test]
fn a_reply_by_the_tool_is_kept() {
    let provider = prov();
    let mut state = start_with_reply_tool(&provider);
    let going_on = call("1", REPLY_TOOL, r#"{"message":"half done","stop_after":false}"#);
    state.on_answer(&provider, calling("", vec![going_on.clone()]));
    state.on_tool_output(&provider, &going_on, "Reply sent", false);
    assert_eq!(state.next_step(false), NextStep::CallModel);
    assert_eq!(state.reply.text.as_deref(), Some("half done"));
    let last = call("2", REPLY_TOOL, r#"{"message":"done"}"#);
    state.on_answer(&provider, calling("", vec![last.clone()]));
    state.on_tool_output(&provider, &last, "Reply sent", false);
    assert_eq!(state.next_step(true), NextStep::Close);
    let end = state.close();
    assert!(end.success);
    assert!(end.result.reply_sent_by_tool);
    assert!(end.result.reply_delivered);
    assert!(!end.result.reply_auto_delivered);
    assert_eq!(end.result.text, "");
    assert_eq!(end.result.reply_text_from_tool.as_deref(), Some("done"));
    assert_eq!(AUTO_DELIVERED, "\n\n— auto-delivered");

    let mut state = start(&provider, None);
    state.on_answer(&provider, calling("", vec![last.clone()]));
    state.on_tool_output(&provider, &last, "no such tool", true);
    assert_eq!(state.next_step(false), NextStep::CallModel);
    assert!(state.reply.failed.is_none());
}

#[test]
fn a_reminder_offers_only_the_reply() {
    let provider = prov();
    let tool = |name: &str| ToolDefinition {
        name: name.to_string(),
        description: String::new(),
        input_schema: Json::object(),
    };
    let names = |tools: Vec<ToolDefinition>| -> Vec<String> {
        tools.into_iter().map(|tool| tool.name).collect()
    };
    let tools = || vec![tool("bash"), tool(REPLY_TOOL), tool("read")];
    let mut state = start_with_reply_tool(&provider);
    assert_eq!(names(state.offered_tools(tools())).len(), 3);
    let broken = call("1", REPLY_TOOL, r#"{"message":""}"#);
    state.on_answer(&provider, calling("", vec![broken.clone()]));
    state.on_tool_output(&provider, &broken, "Message cannot be empty", true);
    let before = state.raw_context.len();
    assert!(matches!(state.on_answer(&provider, answer("in text")), AnswerStep::Remind));
    assert_eq!(state.raw_context.len(), before + 2);
    assert_eq!(names(state.offered_tools(tools())), vec![REPLY_TOOL]);
    match state.on_answer(&provider, answer("in text again")) {
        AnswerStep::Finish { reply, .. } => {
            assert_eq!(reply.as_deref(), Some("in text again\n\n— auto-delivered"))
        }
        other => panic!("expected the end, got {other:?}"),
    }
    assert_eq!(names(state.offered_tools(tools())).len(), 3);
}

#[test]
fn other_tools_are_run_without_narration() {
    let provider = prov();
    let mut state = start(&provider, None);
    let response = calling("looking", vec![call("1", "context_browse", r#"{"page":1}"#)]);
    match state.on_answer(&provider, response) {
        AnswerStep::RunTools { narration, browses, .. } => {
            assert_eq!(narration, None);
            assert!(browses);
        }
        other => panic!("expected tools, got {other:?}"),
    }
    assert_eq!(shown_output("edit", false, "diff"), Some("diff".to_string()));
    assert_eq!(shown_output("bash", true, "failed"), Some("failed".to_string()));
    assert_eq!(shown_output("bash", false, "out"), None);
}

#[test]
fn calls_without_arguments_end_the_loop() {
    let provider = prov();
    let mut state = start(&provider, None);
    for round in 1..=MAX_EMPTY_TOOL_CALL_ITERATIONS {
        let step = state.on_answer(&provider, calling("", vec![call("1", "bash", "{}")]));
        if round < MAX_EMPTY_TOOL_CALL_ITERATIONS {
            assert!(matches!(step, AnswerStep::RunTools { .. }), "round {round}: {step:?}");
        } else {
            assert!(matches!(step, AnswerStep::Abort(_)), "round {round}: {step:?}");
        }
    }
    let mut state = start(&provider, None);
    for _ in 0..5 {
        state.on_answer(&provider, calling("", vec![call("1", "bash", "{}")]));
        let step = state.on_answer(&provider, calling("", vec![call("1", "bash", r#"{"c":"ls"}"#)]));
        assert!(matches!(step, AnswerStep::RunTools { .. }));
    }
}

#[test]
fn cancelling_stops_the_loop() {
    let provider = prov();
    let mut state = start(&provider, None);
    assert_eq!(state.next_step(true), NextStep::Stop);
    let history = state.history.len();
    let raw = state.raw_context.len();
    state.on_answer(&provider, calling("w", vec![call("1", "bash", "{}"), call("2", "bash", "{}")]));
    state.on_tool_output(&provider, &call("1", "bash", "{}"), "out", false);
    state.on_cancelled_tools();
    assert_eq!(state.history.len(), history);
    assert_eq!(state.raw_context.len(), raw);
    let end = state.cancel();
    assert!(!end.success, "cancelled round must report success=false");
    assert_eq!(end.result.text, "", "no reply text after cancellation");
    assert!(!end.result.reply_delivered);
    assert!(!end.result.reply_sent_by_tool);
}

#[test]
fn a_cancelled_round_is_forgotten_in_either_form() {
    for provider in [prov(), anthropic()] {
        let said = vec![ContentBlock::Text { text: "do it".to_string() }];
        let prior = vec![
            json(r#"{"role": "user", "content": "u"}"#),
            json(
                r#"{"role": "assistant", "content": null, "tool_calls": [{"id": "0", "type": "function", "function": {"name": "bash", "arguments": "{}"}}]}"#,
            ),
            json(r#"{"role": "tool", "tool_call_id": "0", "content": "ok"}"#),
            json(r#"{"role": "assistant", "content": "a"}"#),
        ];
        let mut state = LoopState::start(&provider, vec![], prior, said, None, false);
        let raw = shown(&state.raw_context);
        let history = state.history.len();
        let calls = vec![call("1", "bash", r#"{"c":"ls"}"#), call("2", "bash", r#"{"c":"ls"}"#)];
        state.on_answer(&provider, calling("w", calls));
        state.on_tool_output(&provider, &call("1", "bash", r#"{"c":"ls"}"#), "out", false);
        state.on_cancelled_tools();
        assert_eq!(shown(&state.raw_context), raw);
        assert_eq!(state.history.len(), history);
    }
}

#[test]
fn a_cycle_ends_with_a_heartbeat() {
    let provider = prov();
    let mut state = start(&provider, Some(2));
    assert_eq!(start(&provider, None).max_iterations, DEFAULT_MAX_ITERATIONS);
    assert_eq!(state.next_step(false), NextStep::CallModel);
    assert_eq!(state.end_round(), "cycle 1, iteration 1 (1), 0 tokens");
    assert_eq!(state.next_step(false), NextStep::CallModel);
    state.end_round();
    match state.next_step(false) {
        NextStep::Heartbeat(text) => assert!(
            text.ends_with(
                "cycle 1, ~2 tool iterations completed. I will send the full reply when done."
            ),
            "got: {text}"
        ),
        other => panic!("expected a heartbeat, got {other:?}"),
    }
    assert_eq!(state.next_step(false), NextStep::CallModel);
    assert_eq!(state.end_round(), "cycle 2, iteration 3 (1), 0 tokens");
}

#[test]
fn tokens_are_added_up() {
    let provider = prov();
    let mut state = start(&provider, None);
    state.count_tokens(&answer("a"));
    state.count_tokens(&CollectedResponse { input_tokens: 25, ..answer("b") });
    let result = state.finish("b".to_string(), true).result;
    assert_eq!(result.input_tokens, 25);
    assert_eq!(result.total_input_tokens, 35);
    assert_eq!(result.output_tokens, 4);
    assert_eq!(result.total_cache_hit_tokens, 6);
    assert_eq!(result.total_cache_creation_tokens, 2);
    assert_eq!(result.total_reasoning_tokens, 2);
}

#[test]
fn a_full_context_is_compacted() {
    let provider = prov();
    let mut raw = vec![];
    let mut history = vec![];
    for i in 0..5 {
        raw.push(json(&format!(r#"{{"role": "user", "content": "u{i}"}}"#)));
        raw.push(json(&format!(r#"{{"role": "assistant", "content": "a{i}"}}"#)));
        history.push(Message::user(&format!("u{i}")));
        history.push(Message::assistant(&format!("a{i}")));
    }
    let said = vec![ContentBlock::Text { text: "now".to_string() }];
    let mut state = LoopState::start(&provider, history, raw, said, None, false);
    assert!(!state.needs_compaction(Some(1)));
    state.count_tokens(&answer("x"));
    assert!(state.needs_compaction(Some(10)));
    assert!(!state.needs_compaction(Some(11)));
    assert!(!state.needs_compaction(None));
    let told = state.compact();
    assert_eq!(told, "mid-loop compression: 11→6 msgs, 10→0 tokens");
    assert_eq!(state.raw_context.len(), 2 * COMPACT_PAIRS);
    assert_eq!(state.history.len(), 2 * COMPACT_PAIRS);
    assert!(!state.needs_compaction(Some(1)));
}

#[test]
fn loaded_images_are_shown_to_the_model() {
    let provider = anthropic();
    let mut state = start(&provider, None);
    let raw = state.raw_context.len();
    state.on_images(&provider, vec![]);
    assert_eq!(state.raw_context.len(), raw);
    state.on_images(
        &provider,
        vec![ImageSource::Base64 { media_type: "image/png".to_string(), data: "aGk=".to_string() }],
    );
    assert_eq!(state.raw_context.len(), raw + 1);
    let shown = state.raw_context[raw].to_text();
    assert!(shown.contains("aGk="), "got: {shown}");
    assert!(shown.contains("image/png"), "got: {shown}");
}

fn shown(items: &[Json]) -> Vec<String> {
    items.iter().map(|item| item.to_text()).collect()
}

#[test]
fn what_a_round_keeps_can_be_sent_again() {
    for provider in [prov(), anthropic()] {
        let mut state = start(&provider, None);
        let prior_len = state.raw_context.len();
        let calls = vec![call("1", "bash", r#"{"c":"ls"}"#), call("2", "read", r#"{"p":"x"}"#)];
        let (first, second) = (calls[0].clone(), calls[1].clone());
        state.on_answer(&provider, calling("", calls));
        state.on_tool_output(&provider, &first, "out", false);
        let cut = filter_valid_messages(&state.raw_context);
        assert_eq!(cut.len(), prior_len, "a call without its answer is not sent");
        state.on_tool_output(&provider, &second, "text", true);
        state.on_answer(&provider, answer("done"));
        state.on_embedded_answer(&provider, "yes", false);
        assert_eq!(
            shown(&filter_valid_messages(&state.raw_context)),
            shown(&state.raw_context)
        );
        let window = ContextStrategyConfig {
            mode: ContextStrategy::SlidingWindow,
            window: 3,
            note_window: Some(1),
            tool_result_cap: Some(2),
        };
        for boundary in 0..=state.raw_context.len() {
            let (sent, _) =
                build_send_context_with_regions(&provider, &state.raw_context, boundary, &window);
            assert_eq!(shown(&filter_valid_messages(&sent)), shown(&sent), "boundary {boundary}");
        }
        state.compact();
        assert_eq!(
            shown(&filter_valid_messages(&state.raw_context)),
            shown(&state.raw_context)
        );
    }
}

#[test]
fn each_step_of_a_turn_leaves_what_can_be_sent() {
    for provider in [prov(), anthropic()] {
        let mut state = start(&provider, Some(2));
        for round in 0..5 {
            while let NextStep::Heartbeat(_) = state.next_step(false) {}
            let id = format!("{round}");
            let made = call(&id, "bash", r#"{"c":"ls"}"#);
            state.on_answer(&provider, calling("", vec![made.clone()]));
            state.on_tool_output(&provider, &made, "out", false);
            state.on_images(&provider, vec![]);
            state.end_round();
            assert_eq!(state.total_iterations, round + 1);
            assert_eq!(state.cycle_count * 2 + state.iter_in_cycle, round + 1);
            let kept = shown(&state.raw_context);
            assert_eq!(shown(&filter_valid_messages(&state.raw_context)), kept);
        }
        assert_eq!(state.cycle_count, 2);
        state.on_answer(&provider, answer("done"));
        let kept = shown(&state.raw_context);
        assert_eq!(shown(&filter_valid_messages(&state.raw_context)), kept);
    }
}
