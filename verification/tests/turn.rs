use jyc_agent::agent_loop::embedded_ask::find_embedded_ask;
use jyc_agent::agent_loop::response::{parse_arguments, CollectedResponse, ToolCall};
use jyc_agent::agent_loop::run::{TurnEnd, REPLY_TOOL};
use jyc_agent::agent_loop::turn::{Action, Happening, Notice, Turn};
use jyc_agent::json::Json;
use jyc_agent::provider::anthropic::AnthropicProvider;
use jyc_agent::provider::messages::filter_valid_messages;
use jyc_agent::provider::openai_compat::OpenAiCompatProvider;
use jyc_agent::provider::select::AnyProvider;
use jyc_agent::types::{ContentBlock, ImageSource, ToolDefinition};

fn chat() -> AnyProvider {
    AnyProvider::OpenAiCompat(OpenAiCompatProvider::new("https://o", "m", None, None, true, None))
}

fn anthropic() -> AnyProvider {
    AnyProvider::Anthropic(AnthropicProvider::new("https://a", "m", None, None, true, None, false))
}

fn says(text: &str) -> CollectedResponse {
    CollectedResponse {
        text: text.to_string(),
        reasoning_content: String::new(),
        tool_calls: vec![],
        input_tokens: 10,
        output_tokens: 2,
        cache_hit_tokens: 0,
        cache_creation_tokens: 0,
        reasoning_tokens: 0,
    }
}

fn calls(text: &str, id: &str, name: &str, arguments: &str) -> CollectedResponse {
    CollectedResponse {
        tool_calls: vec![ToolCall {
            id: id.to_string(),
            name: name.to_string(),
            arguments: arguments.to_string(),
        }],
        ..says(text)
    }
}

fn tool(name: &str) -> ToolDefinition {
    ToolDefinition {
        name: name.to_string(),
        description: String::new(),
        input_schema: Json::object(),
    }
}

/// When a turn is cancelled.
#[derive(Clone, Copy, PartialEq)]
enum Cancel {
    Never,
    InCall,
    InTool,
}

/// What a scripted turn has done.
#[derive(Default)]
struct Log {
    /// Replies and questions, in order.
    told: Vec<(&'static str, String)>,
    notices: Vec<String>,
    model_calls: usize,
    offered: Vec<Vec<String>>,
}

struct Script {
    provider: AnyProvider,
    rounds: Vec<CollectedResponse>,
    reply_tool: bool,
    max_iterations: Option<usize>,
    limit: Option<u64>,
    cancel: Cancel,
}

fn script(rounds: Vec<CollectedResponse>, reply_tool: bool) -> Script {
    Script {
        provider: chat(),
        rounds,
        reply_tool,
        max_iterations: Some(5),
        limit: None,
        cancel: Cancel::Never,
    }
}

/// Runs a tool: a reply must say something, and questions are answered.
fn execute(call: &ToolCall, log: &mut Log) -> (String, bool) {
    let input = parse_arguments(&call.arguments);
    match call.name.as_str() {
        REPLY_TOOL => {
            if input.get("silent").and_then(|v| v.as_bool()) == Some(true) {
                return ("Nothing sent".to_string(), false);
            }
            let message = input.get_str("message").unwrap_or("").to_string();
            if message.is_empty() {
                return ("Message cannot be empty".to_string(), true);
            }
            log.told.push(("reply", message));
            ("Reply sent".to_string(), false)
        }
        "ask_user" => {
            log.told.push(("question", input.get_str("question").unwrap_or("").to_string()));
            ("按方案".to_string(), false)
        }
        _ => ("out".to_string(), false),
    }
}

fn run(script: Script) -> (Result<TurnEnd, String>, Log) {
    let Script { provider, rounds, reply_tool, max_iterations, limit, cancel } = script;
    let said = vec![ContentBlock::Text { text: "hello".to_string() }];
    let mut turn = Turn::start(&provider, vec![], vec![], said, max_iterations, reply_tool);
    let mut log = Log::default();
    let mut rounds = rounds.into_iter();
    let mut happening = Happening::Begun;
    let mut cancelled = false;
    for _ in 0..100 {
        let step = turn.step(&provider, limit, cancelled, happening);
        turn = step.turn;
        for notice in step.notices {
            log.notices.push(match notice {
                Notice::Compacted(text) => format!("compacted: {text}"),
                Notice::NoReply(text) => format!("no_reply: {text}"),
                Notice::Progress(text) => format!("progress: {text}"),
            });
        }
        happening = match step.action {
            Action::Call => {
                let mut tools = vec![tool("bash"), tool("ask_user")];
                if reply_tool {
                    tools.push(tool(REPLY_TOOL));
                }
                let offered = turn.state.offered_tools(tools);
                log.offered.push(offered.into_iter().map(|tool| tool.name).collect());
                log.model_calls += 1;
                if cancel == Cancel::InCall {
                    cancelled = true;
                    Happening::CallFailed("cancelled".to_string())
                } else {
                    match rounds.next() {
                        Some(response) => Happening::Answered(response),
                        None => Happening::CallFailed("no more rounds".to_string()),
                    }
                }
            }
            Action::Deliver(text) => {
                log.told.push(("reply", text));
                Happening::Delivered(true)
            }
            Action::Ask(input) => {
                let call = ToolCall {
                    id: String::new(),
                    name: "ask_user".to_string(),
                    arguments: input.to_text(),
                };
                let (content, is_error) = execute(&call, &mut log);
                Happening::Output { content, is_error }
            }
            Action::RunTool { call, .. } => {
                if cancel == Cancel::InTool {
                    cancelled = true;
                    Happening::Interrupted
                } else {
                    let (content, is_error) = execute(&call, &mut log);
                    Happening::Output { content, is_error }
                }
            }
            Action::CollectImages => Happening::Images(Vec::new()),
            Action::End => return (turn.into_end(), log),
        };
    }
    panic!("the turn does not end")
}

fn texts(raw: &[Json], role: &str) -> Vec<String> {
    raw.iter()
        .filter(|m| m.get_str("role") == Some(role))
        .filter_map(|m| m.get_str("content").map(String::from))
        .collect()
}

fn assert_no_tag(log: &Log) {
    for (kind, text) in &log.told {
        assert!(!text.contains("<ask_user"), "raw tag leaked into a {kind} delivery: {text}");
    }
}

#[test]
fn text_only_finish_auto_delivers_without_reminder() {
    let (end, log) = run(script(vec![says("I'll check the docs")], true));
    let result = end.unwrap().result;
    assert_eq!(log.model_calls, 1);
    assert!(result.reply_sent_by_tool, "auto-delivered reply must count as sent by the tool");
    assert!(result.reply_auto_delivered, "auto-delivered reply must be flagged for metrics");
    assert_eq!(
        result.reply_text_from_tool.as_deref(),
        Some("I'll check the docs\n\n— auto-delivered")
    );
    let reminders: Vec<String> = texts(&result.raw_context, "user")
        .into_iter()
        .filter(|c| c.contains("[System reminder]"))
        .collect();
    assert!(reminders.is_empty(), "no reminder may be injected, got: {reminders:?}");
    assert!(log.notices.is_empty(), "no status events expected, got: {:?}", log.notices);
}

#[test]
fn silent_reply_closes_turn_without_delivery() {
    let rounds = vec![calls("", "call_1", "jyc_reply_message", r#"{"silent":true}"#)];
    let (end, log) = run(script(rounds, true));
    let end = end.unwrap();
    assert!(end.success);
    assert_eq!(log.model_calls, 1);
    assert!(end.result.reply_sent_by_tool, "silent reply counts as handled");
    assert!(end.result.reply_text_from_tool.is_none(), "silent reply carries no text");
    assert!(end.result.text.is_empty(), "no fallback text expected");
    assert!(log.told.is_empty());
}

#[test]
fn persistent_text_only_is_auto_delivered_via_reply_tool() {
    let (end, log) = run(script(vec![says("thinking out loud")], true));
    let result = end.unwrap().result;
    assert_eq!(log.model_calls, 1);
    assert!(result.reply_sent_by_tool, "auto-delivered reply must count as sent by the tool");
    assert!(result.reply_auto_delivered, "auto-delivered reply must be flagged for metrics");
    assert_eq!(
        result.reply_text_from_tool.as_deref(),
        Some("thinking out loud\n\n— auto-delivered")
    );
}

#[test]
fn synthetic_auto_delivery_publishes_reply_sent() {
    let (end, log) = run(script(vec![says("thinking out loud")], true));
    assert!(end.unwrap().result.reply_auto_delivered);
    let sent: Vec<&str> = log.told.iter().map(|(_, text)| text.as_str()).collect();
    assert_eq!(sent, vec!["thinking out loud\n\n— auto-delivered"]);
}

#[test]
fn failed_reply_then_text_only_gets_failure_reminder() {
    let rounds = vec![
        calls("", "call_1", "jyc_reply_message", r#"{"message":"","stop_after":true}"#),
        says("let me just say it in text"),
        calls("", "call_2", "jyc_reply_message", r#"{"message":"fixed answer","stop_after":true}"#),
    ];
    let (end, log) = run(Script { max_iterations: Some(6), ..script(rounds, true) });
    let result = end.unwrap().result;
    assert_eq!(log.model_calls, 3);
    assert!(result.reply_sent_by_tool, "corrected reply must win");
    assert_eq!(result.reply_text_from_tool.as_deref(), Some("fixed answer"));
    let reminders: Vec<String> = texts(&result.raw_context, "user")
        .into_iter()
        .filter(|c| c.contains("[System reminder]"))
        .collect();
    assert_eq!(reminders.len(), 1, "exactly one reminder expected");
    assert!(
        reminders[0].contains("FAILED and the reply was NOT delivered"),
        "got: {}",
        reminders[0]
    );
    assert!(
        reminders[0].contains("Message cannot be empty"),
        "reminder must quote the tool error, got: {}",
        reminders[0]
    );
    assert_eq!(log.offered.len(), 3);
    assert_eq!(log.offered[2], vec!["jyc_reply_message".to_string()]);
}

#[test]
fn embedded_tag_recovers_question_with_message_first() {
    let prose = "## 方案\n\n改动 1、2、3。";
    let tag = "<ask_user question=\"开工吗？\" options=\"按方案, 再想想\" timeout_seconds=\"60\">";
    let rounds = vec![says(&format!("{prose}\n\n{tag}")), says("收到，按方案开工。")];
    let (end, log) = run(script(rounds, true));
    let result = end.unwrap().result;
    assert_eq!(log.model_calls, 2);
    assert!(result.reply_auto_delivered, "the post-answer conclusion must auto-deliver");
    assert_eq!(
        result.reply_text_from_tool.as_deref(),
        Some("收到，按方案开工。\n\n— auto-delivered")
    );
    let tool_msgs = texts(&result.raw_context, "tool");
    assert!(
        tool_msgs.iter().any(|c| c.ends_with("按方案")),
        "the answer must be the embedded ask's tool result, got: {tool_msgs:?}"
    );
    assert_eq!(log.told[0], ("reply", prose.to_string()));
    assert_eq!(log.told[1], ("question", "开工吗？".to_string()));
    assert_no_tag(&log);
}

#[test]
fn malformed_tag_is_stripped_from_delivery() {
    let rounds = vec![says("结论先行。\n\n<ask_user options=\"a, b\">")];
    let (end, log) = run(script(rounds, true));
    let result = end.unwrap().result;
    assert_eq!(log.model_calls, 1);
    assert_eq!(
        result.reply_text_from_tool.as_deref(),
        Some("结论先行。\n\n— auto-delivered")
    );
    assert!(log.told.iter().all(|(kind, _)| *kind == "reply"));
    assert_no_tag(&log);
}

#[test]
fn final_text_is_queued_via_file_relay() {
    let (end, log) = run(script(vec![says("Here is the final answer."), says("")], false));
    let result = end.unwrap().result;
    assert_eq!(result.text, "Here is the final answer.");
    assert!(result.reply_delivered, "final text must be delivered");
    assert_eq!(log.told, vec![("reply", "Here is the final answer.".to_string())]);
}

#[test]
fn cancel_during_llm_call_publishes_processing_completed() {
    let (end, log) = run(Script { cancel: Cancel::InCall, ..script(vec![], false) });
    let end = end.expect("cancellation must not surface as an error");
    assert_eq!(end.result.text, "", "no reply text after cancellation");
    assert!(!end.result.reply_sent_by_tool);
    assert!(!end.success, "cancelled round must report success=false");
    assert!(log.told.is_empty());
}

#[test]
fn cancel_during_long_running_tool_returns_quickly() {
    for provider in [chat(), anthropic()] {
        let rounds = vec![calls("", "call_1", "bash", r#"{"command":"sleep 60"}"#)];
        let (end, log) =
            run(Script { provider, cancel: Cancel::InTool, ..script(rounds, false) });
        let end = end.expect("cancellation must not surface as an error");
        assert_eq!(end.result.text, "", "no reply text after cancellation");
        assert!(!end.success);
        assert_eq!(log.model_calls, 1);
        let shown = |items: &[Json]| -> Vec<String> { items.iter().map(Json::to_text).collect() };
        assert_eq!(
            shown(&filter_valid_messages(&end.result.raw_context)),
            shown(&end.result.raw_context)
        );
        assert_eq!(end.result.raw_context.len(), 1, "the cancelled round leaves no trace");
    }
}

#[test]
fn a_failed_call_ends_the_turn_with_its_error() {
    let (end, _) = run(script(vec![], false));
    assert_eq!(end.unwrap_err(), "no more rounds");
}

#[test]
fn an_empty_answer_is_told() {
    let (end, log) = run(script(vec![says("")], true));
    let end = end.unwrap();
    assert!(end.success);
    assert!(!end.result.reply_sent_by_tool);
    assert_eq!(log.notices.len(), 1);
    assert!(log.notices[0].starts_with("no_reply: "));
}

#[test]
fn rounds_cycles_and_compaction_are_told() {
    let rounds: Vec<CollectedResponse> = (0..3)
        .map(|i| calls("w", &format!("{i}"), "bash", r#"{"c":"ls"}"#))
        .chain(vec![says("done")])
        .collect();
    let (end, log) =
        run(Script { max_iterations: Some(2), limit: Some(10), ..script(rounds, false) });
    assert!(end.unwrap().result.reply_delivered);
    let heartbeats = log.told.iter().filter(|(_, text)| text.contains("cycle 1, ~2")).count();
    assert_eq!(heartbeats, 1);
    let progress = log.notices.iter().filter(|n| n.starts_with("progress: ")).count();
    assert_eq!(progress, 3);
    let cut = log.notices.iter().filter(|n| n.starts_with("compacted: ")).count();
    assert_eq!(cut, 4);
}

#[test]
fn what_a_turn_does_not_wait_for_is_an_error() {
    let provider = chat();
    let said = vec![ContentBlock::Text { text: "hello".to_string() }];
    let turn = Turn::start(&provider, vec![], vec![], said, None, false);
    let step = turn.step(&provider, None, false, Happening::Images(Vec::<ImageSource>::new()));
    assert!(matches!(step.action, Action::End));
    let again = step.turn.step(&provider, None, false, Happening::Begun);
    assert!(matches!(again.action, Action::End));
    assert!(again.turn.into_end().is_err());
    assert!(find_embedded_ask("plain").is_none());
}
