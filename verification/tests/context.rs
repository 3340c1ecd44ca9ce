use jyc_agent::agent_loop::context::{
    build_send_context_with_regions, cap_tool_result_content, compact_history_heuristic,
    format_cleaned_message, history_of, ContextStrategy, ContextStrategyConfig,
};
use jyc_agent::json::{parse_json, Json};
use jyc_agent::provider::anthropic::AnthropicProvider;
use jyc_agent::provider::openai_compat::OpenAiCompatProvider;
use jyc_agent::provider::select::AnyProvider;
use jyc_agent::session::{
    extract_message_text, extract_pairs, extract_user_assistant_pairs, is_history_note,
    is_turn_start, render_raw_context_as_text, truncate_text, verbatim_start_index,
};
use jyc_agent::types::{ContentBlock, Message, Role};

fn json(text: &str) -> Json {
    parse_json(text).unwrap()
}
/// The document at a path of names and indices, or null.
fn pick<'a>(json: &'a Json, path: &str) -> &'a Json {
    let mut at = json;
    for step in path.split('/') {
        at = match step.parse::<usize>() {
            Ok(i) => at.as_array().and_then(|items| items.get(i)),
            Err(_) => at.get(step),
        }
        .unwrap_or(&Json::Null);
    }
    at
}

fn shown(items: &[Json]) -> Vec<String> {
    items.iter().map(|item| item.to_text()).collect()
}

fn wire(items: &[Json]) -> String {
    format!("[{}]", shown(items).join(","))
}

fn prov() -> AnyProvider {
    AnyProvider::OpenAiCompat(OpenAiCompatProvider::new("https://o", "m", None, None, false, None))
}

fn anthropic() -> AnyProvider {
    AnyProvider::Anthropic(AnthropicProvider::new("https://a", "m", None, None, false, None, false))
}

fn msg_one_line(msg: &Json) -> String {
    let mut out = msg.get_str("role").unwrap_or("?").to_string();
    let text = extract_message_text(msg);
    if !text.is_empty() {
        let preview: String = text.replace('\n', " ").chars().take(60).collect();
        out.push_str(&format!(" \"{preview}\""));
    }
    let calls = msg.get_array("tool_calls").map_or(0, |calls| calls.len());
    if calls > 0 {
        out.push_str(&format!(" ({calls} tool_calls)"));
    }
    out
}

fn append_region_summary(s: &mut String, sent: &[Json], regions: &[u8], is_full: bool) {
    if is_full {
        s.push_str("(Full mode — single region, no windowing)\n");
        for (i, msg) in sent.iter().enumerate() {
            s.push_str(&format!("  [{i}] {}\n", msg_one_line(msg)));
        }
        return;
    }
    let headers = [
        (1u8, "① Compacted history (text-only)"),
        (2u8, "② Verbatim (structured tool calls kept)"),
        (3u8, "③ Current turn (verbatim)"),
    ];
    for (region, header) in headers {
        let here: Vec<usize> = (0..sent.len()).filter(|i| regions[*i] == region).collect();
        if !here.is_empty() {
            s.push_str(&format!("┌─ {header}\n"));
            for i in here {
                s.push_str(&format!("│  [{i}] {}\n", msg_one_line(&sent[i])));
            }
        }
    }
    s.push_str("└─\n");
}

/// The messages that are sent, with the region of each, as a text.
fn dump_send_context(
    provider: &AnyProvider,
    raw_context: &[Json],
    prior_len: usize,
    strategy: &ContextStrategyConfig,
) -> String {
    let (sent, regions) = build_send_context_with_regions(provider, raw_context, prior_len, strategy);
    let full = matches!(strategy.mode, ContextStrategy::Full);
    let mode = if full { "Full" } else { "SlidingWindow" };
    let mut s = format!(
        "=== context sent to LLM (strategy={mode} window={} note_window={:?}) ===\n{} msgs, ~{} bytes\n\n",
        strategy.window,
        strategy.note_window,
        sent.len(),
        wire(&sent).len(),
    );
    append_region_summary(&mut s, &sent, &regions, full);
    s.push_str("\n--- wire payload ---\n");
    s.push_str(&wire(&sent));
    s
}

#[test]
fn full_strategy_borrows_unchanged() {
    let ctx = vec![
        json(r#"{"role": "user", "content": "u1"}"#),
        json(r#"{"role": "assistant", "content": "a1"}"#),
        json(r#"{"role": "user", "content": "u2"}"#),
    ];
    let prior_len = 2;
    let cfg = ContextStrategyConfig {
        mode: ContextStrategy::Full,
        window: 10,
        note_window: None,
        tool_result_cap: None,
    };
    let sent = build_send_context_with_regions(&prov(), &ctx, prior_len, &cfg).0;
    assert_eq!(sent.len(), ctx.len());
    assert_eq!(shown(&sent), shown(&ctx));
}

#[test]
fn sliding_window_emits_recent_verbatim_and_older_compacted() {
    let prior = vec![
        json(r#"{"role": "user", "content": "u1"}"#),
        json(r#"{"role": "assistant", "content": "a1"}"#),
        json(r#"{"role": "user", "content": "u2"}"#),
        json(r#"{"role": "assistant", "content": "a2", "tool_calls": [{"id":"1","type":"function","function":{"name":"bash","arguments":"{}"}}]}"#),
        json(r#"{"role": "tool", "tool_call_id": "1", "content": "out"}"#),
        json(r#"{"role": "user", "content": "u3"}"#),
        json(r#"{"role": "assistant", "content": "a3"}"#),
    ];
    let current = vec![
        json(r#"{"role": "user", "content": "u4"}"#),
        json(r#"{"role": "assistant", "content": "a4", "tool_calls": [{"id":"2","type":"function","function":{"name":"bash","arguments":"{}"}}]}"#),
        json(r#"{"role": "tool", "tool_call_id": "2", "content": "out2"}"#),
    ];
    let prior_len = prior.len();
    let mut ctx = prior.clone();
    ctx.extend(current.clone());
    let cfg = ContextStrategyConfig {
        mode: ContextStrategy::SlidingWindow,
        window: 2,
        note_window: Some(1),
        tool_result_cap: None,
    };
    let sent = build_send_context_with_regions(&prov(), &ctx, prior_len, &cfg).0;
    assert_eq!(sent[0].to_text(), json(r#"{"role": "user", "content": "u2"}"#).to_text());
    assert_eq!(sent[1].to_text(), json(r#"{"role": "assistant", "content": "a2"}"#).to_text());
    assert_eq!(sent[2].to_text(), json(r#"{"role": "user", "content": "u3"}"#).to_text());
    assert_eq!(sent[3].to_text(), json(r#"{"role": "assistant", "content": "a3"}"#).to_text());
    assert_eq!(sent[4].to_text(), current[0].to_text());
    assert_eq!(sent[5].to_text(), current[1].to_text());
    assert_eq!(sent[6].to_text(), current[2].to_text());
}

#[test]
fn sliding_window_prior_shorter_than_raw_context() {
    let ctx = vec![
        json(r#"{"role": "user", "content": "u1"}"#),
        json(r#"{"role": "assistant", "content": "a1"}"#),
    ];
    let cfg = ContextStrategyConfig {
        mode: ContextStrategy::SlidingWindow,
        window: 5,
        note_window: None,
        tool_result_cap: None,
    };
    let sent = build_send_context_with_regions(&prov(), &ctx, 99, &cfg).0;
    assert_eq!(sent.len(), 2);
    assert_eq!(sent[0].to_text(), json(r#"{"role": "user", "content": "u1"}"#).to_text());
    assert_eq!(sent[1].to_text(), json(r#"{"role": "assistant", "content": "a1"}"#).to_text());
}

#[test]
fn sliding_window_empty_prior_returns_only_current() {
    let ctx = vec![
        json(r#"{"role": "user", "content": "current"}"#),
        json(r#"{"role": "assistant", "content": "reply"}"#),
    ];
    let cfg = ContextStrategyConfig {
        mode: ContextStrategy::SlidingWindow,
        window: 10,
        note_window: None,
        tool_result_cap: None,
    };
    let sent = build_send_context_with_regions(&prov(), &ctx, 0, &cfg).0;
    assert_eq!(shown(&sent), shown(&ctx));
}

#[test]
fn sliding_window_anthropic_shaped_prior_emits_no_empty_blocks() {
    let prior = vec![
        json(r#"{"role": "user", "content": [{"type": "text", "text": "u1"}]}"#),
        json(r#"{"role": "assistant", "content": [{"type": "text", "text": "a1"}]}"#),
        json(r#"{"role": "assistant", "content": [ {"type": "text", "text": "calling bash"}, {"type": "tool_use", "id": "t1", "name": "bash", "input": {}} ]}"#),
        json(r#"{"role": "user", "content": [{"type": "tool_result", "tool_use_id": "t1", "content": "ok"}]}"#),
        json(r#"{"role": "user", "content": [{"type": "text", "text": "u2"}]}"#),
        json(r#"{"role": "assistant", "content": [{"type": "text", "text": "a2"}]}"#),
    ];
    let current = vec![
        json(r#"{"role": "user", "content": [{"type": "text", "text": "u3"}]}"#),
        json(r#"{"role": "assistant", "content": [{"type": "text", "text": "a3"}]}"#),
    ];
    let prior_len = prior.len();
    let mut ctx = prior.clone();
    ctx.extend(current.clone());
    let cfg = ContextStrategyConfig {
        mode: ContextStrategy::SlidingWindow,
        window: 4,
        note_window: Some(1),
        tool_result_cap: None,
    };
    let sent = build_send_context_with_regions(&anthropic(), &ctx, prior_len, &cfg).0;
    for (i, msg) in sent.iter().enumerate() {
        let role = msg.get_str("role").unwrap_or("");
        if let Some(blocks) = pick(&msg, "content").as_array() {
            for b in blocks {
                if pick(&b, "type").as_str() == Some("text") {
                    let text = pick(&b, "text").as_str().unwrap_or("");
                    assert!(
                        !text.is_empty(),
                        "empty text block at messages.{i} (role={role})",
                    );
                }
            }
        }
    }
    assert!(
        sent.iter()
            .any(|m| m.get_str("role") == Some("user") && pick(m, "content/0/text").as_str() == Some("u1"))
    );
    assert!(sent.iter().any(|m| m.get_str("role") == Some("assistant")
        && pick(m, "content/0/text").as_str() == Some("a1\ncalling bash")));
    assert!(
        !sent.iter().any(|m| pick(m, "content")
            .as_str()
            .is_some_and(|t| t.starts_with("[History note]"))),
        "no history note may reach the wire"
    );
    assert!(
        sent.iter()
            .any(|m| m.get_str("role") == Some("user") && pick(m, "content/0/text").as_str() == Some("u2"))
    );
    assert!(sent.iter().any(|m| m.get_str("role") == Some("assistant")
        && pick(m, "content/0/text").as_str() == Some("a2")));
    let tail_start = sent.len() - current.len();
    assert_eq!(shown(&sent[tail_start..]), shown(&current));
}

#[test]
fn sliding_window_recent_turn_keeps_structured_tool_calls() {
    let prior = vec![
        json(r#"{"role": "user", "content": "u1"}"#),
        json(r#"{"role": "assistant", "content": "a1"}"#),
        json(r#"{"role": "user", "content": "u2"}"#),
        json(r#"{"role": "assistant", "content": "calling bash", "tool_calls": [{"id":"1","type":"function","function":{"name":"bash","arguments":"{\"command\":\"ls\"}"}}]}"#),
        json(r#"{"role": "tool", "tool_call_id": "1", "content": "file.txt"}"#),
        json(r#"{"role": "assistant", "content": "done"}"#),
    ];
    let current = vec![json(r#"{"role": "user", "content": "u3"}"#)];
    let prior_len = prior.len();
    let mut ctx = prior.clone();
    ctx.extend(current.clone());
    let cfg = ContextStrategyConfig {
        mode: ContextStrategy::SlidingWindow,
        window: 5,
        note_window: Some(1),
        tool_result_cap: None,
    };
    let sent = build_send_context_with_regions(&prov(), &ctx, prior_len, &cfg).0;
    assert_eq!(sent[0].to_text(), json(r#"{"role": "user", "content": "u1"}"#).to_text());
    assert_eq!(sent[1].to_text(), json(r#"{"role": "assistant", "content": "a1"}"#).to_text());
    assert_eq!(sent[2].to_text(), json(r#"{"role": "user", "content": "u2"}"#).to_text());
    assert_eq!(sent[3].to_text(), prior[3].to_text());
    assert_eq!(sent[4].to_text(), prior[4].to_text());
    assert_eq!(sent[5].to_text(), json(r#"{"role": "assistant", "content": "done"}"#).to_text());
    assert_eq!(sent[6].to_text(), current[0].to_text());
}

#[test]
fn sliding_window_filters_round_tripped_notes_from_verbatim_region() {
    let prior = vec![
        json(r#"{"role": "user", "content": "u1"}"#),
        json(r#"{"role": "user", "content": "[History note] assistant tool calls: bash(command=\"ls\") → ok"}"#),
        json(r#"{"role": "assistant", "content": "a1"}"#),
        json(r#"{"role": "user", "content": "u2"}"#),
        json(r#"{"role": "assistant", "content": "a2"}"#),
    ];
    let current = vec![json(r#"{"role": "user", "content": "u3"}"#)];
    let prior_len = prior.len();
    let mut ctx = prior.clone();
    ctx.extend(current.clone());
    let cfg = ContextStrategyConfig {
        mode: ContextStrategy::SlidingWindow,
        window: 10,
        note_window: Some(5),
        tool_result_cap: None,
    };
    let sent = build_send_context_with_regions(&prov(), &ctx, prior_len, &cfg).0;
    let texts: Vec<&str> = sent.iter().filter_map(|m| m.get_str("content")).collect();
    assert!(
        !texts.iter().any(|t| t.starts_with("[History note]")),
        "history note must not reach the wire, got: {texts:?}"
    );
    assert_eq!(
        shown(&sent),
        shown(&[
            json(r#"{"role": "user", "content": "u1"}"#),
            json(r#"{"role": "assistant", "content": "a1"}"#),
            json(r#"{"role": "user", "content": "u2"}"#),
            json(r#"{"role": "assistant", "content": "a2"}"#),
            json(r#"{"role": "user", "content": "u3"}"#),
        ])
    );
}

#[test]
fn with_regions_labels_full_mode_as_single_region() {
    let ctx = vec![
        json(r#"{"role": "user", "content": "u1"}"#),
        json(r#"{"role": "assistant", "content": "a1"}"#),
        json(r#"{"role": "user", "content": "u2"}"#),
    ];
    let cfg = ContextStrategyConfig {
        mode: ContextStrategy::Full,
        window: 10,
        note_window: None,
        tool_result_cap: None,
    };
    let (sent, regions) = build_send_context_with_regions(&prov(), &ctx, 0, &cfg);
    assert_eq!(sent.len(), 3);
    assert_eq!(regions, vec![1, 1, 1]);
    let dump = dump_send_context(&prov(), &ctx, 0, &cfg);
    assert!(
        dump.contains("strategy=Full"),
        "missing strategy summary: {dump}"
    );
    assert!(
        dump.contains("single region"),
        "Full dump should say single region: {dump}"
    );
    assert!(dump.contains("\"u1\""), "missing msg preview: {dump}");
}

#[test]
fn with_regions_labels_sliding_window_three_regions() {
    let prior = vec![
        json(r#"{"role": "user", "content": "u1"}"#),
        json(r#"{"role": "assistant", "content": "a1"}"#),
        json(r#"{"role": "user", "content": "u2"}"#),
        json(r#"{"role": "assistant", "content": "a2"}"#),
    ];
    let current = vec![json(r#"{"role": "user", "content": "u3"}"#)];
    let mut ctx = prior.clone();
    ctx.extend(current.clone());
    let cfg = ContextStrategyConfig {
        mode: ContextStrategy::SlidingWindow,
        window: 2,
        note_window: Some(1),
        tool_result_cap: None,
    };
    let (sent, regions) = build_send_context_with_regions(&prov(), &ctx, prior.len(), &cfg);
    assert_eq!(sent.len(), 5);
    assert_eq!(regions, vec![1, 1, 2, 2, 3]);

    let dump = dump_send_context(&prov(), &ctx, prior.len(), &cfg);
    assert!(
        dump.contains("① Compacted history"),
        "missing region ①: {dump}"
    );
    assert!(dump.contains("② Verbatim"), "missing region ②: {dump}");
    assert!(dump.contains("③ Current turn"), "missing region ③: {dump}");
    assert!(
        dump.contains("--- wire payload ---"),
        "missing payload section: {dump}"
    );
}

#[test]
fn cap_tool_result_truncates_openai_shape() {
    let big = "x".repeat(2000);
    let msg = json(r#"{"role": "tool", "tool_call_id": "1"}"#).with("content", Json::text(&big));
    let capped = cap_tool_result_content(&msg, 100);
    let content = pick(&capped, "content").as_str().unwrap();
    assert!(content.len() < 200, "should be much smaller than 2000");
    assert!(content.starts_with('x'), "preserves leading content");
    assert!(content.contains("[truncated"), "appends truncation marker");
    assert!(content.contains("bytes]"), "marker mentions bytes");
    assert!(
        content.contains("[truncated 1900 bytes]"),
        "marker should report exact dropped bytes, got: {content}"
    );
}

#[test]
fn cap_tool_result_passthrough_when_under_cap() {
    let msg = json(r#"{"role": "tool", "tool_call_id": "1", "content": "short"}"#);
    let capped = cap_tool_result_content(&msg, 100);
    assert_eq!(pick(&capped, "content").as_str().unwrap(), "short");
    assert!(!pick(&capped, "content").as_str().unwrap().contains("truncated"));
}

#[test]
fn cap_tool_result_passthrough_for_user_or_assistant() {
    let msg = json(r#"{"role": "assistant"}"#).with("content", Json::text(&"x".repeat(2000)));
    let capped = cap_tool_result_content(&msg, 100);
    assert_eq!(capped.to_text(), msg.to_text(), "assistant should pass through unchanged");

    let msg = json(r#"{"role": "user"}"#).with("content", Json::text(&"x".repeat(2000)));
    let capped = cap_tool_result_content(&msg, 100);
    assert_eq!(capped.to_text(), msg.to_text(), "user with string content (no tool_result blocks) should pass through");
}

#[test]
fn cap_tool_result_zero_is_passthrough() {
    let msg = json(r#"{"role": "tool", "tool_call_id": "1"}"#).with("content", Json::text(&"x".repeat(2000)));
    let capped = cap_tool_result_content(&msg, 0);
    assert_eq!(capped.to_text(), msg.to_text());
}

#[test]
fn cap_tool_result_truncates_anthropic_shape() {
    let big = "x".repeat(2000);
    let text = r#"{ "role": "user", "content": [ {"type": "text", "text": "framing text"}, {"type": "tool_result", "tool_use_id": "t1", "content": "BIG"}, {"type": "tool_result", "tool_use_id": "t2", "content": "short"}, {"type": "image", "source": {"type": "base64", "data": "..."}} ] }"#;
    let msg = json(&text.replace("BIG", &big));
    let capped = cap_tool_result_content(&msg, 100);
    let blocks = pick(&capped, "content").as_array().unwrap();
    assert_eq!(blocks.len(), 4, "block count preserved");
    assert_eq!(pick(&blocks[0], "text").as_str(), Some("framing text"));
    assert!(pick(&blocks[1], "content").as_str().unwrap().contains("[truncated"));
    assert_eq!(pick(&blocks[2], "content").as_str().unwrap(), "short");
    assert_eq!(blocks[3].to_text(), json(r#"{"type": "image", "source": {"type": "base64", "data": "..."}}"#).to_text());
}

#[test]
fn build_send_context_applies_cap_to_verbatim_region() {
    let big = "y".repeat(2000);
    let prior = vec![
        json(r#"{"role": "user", "content": "u1"}"#),
        json(r#"{"role": "assistant", "content": "a1"}"#),
        json(r#"{"role": "user", "content": "u2"}"#),
        json(r#"{"role": "assistant", "content": "calling bash", "tool_calls": [{"id":"1","type":"function","function":{"name":"bash","arguments":"{}"}}]}"#),
        json(r#"{"role": "tool", "tool_call_id": "1"}"#).with("content", Json::text(&big)),
        json(r#"{"role": "assistant", "content": "done"}"#),
    ];
    let current = vec![json(r#"{"role": "tool", "tool_call_id": "2"}"#).with("content", Json::text(&big))];
    let mut ctx = prior.clone();
    ctx.extend(current.clone());
    let prior_len = prior.len();

    let uncapped_cfg = ContextStrategyConfig {
        mode: ContextStrategy::SlidingWindow,
        window: 5,
        note_window: Some(5),
        tool_result_cap: None,
    };
    let (uncapped, _) =
        build_send_context_with_regions(&prov(), &ctx, prior_len, &uncapped_cfg);
    let uncapped_bytes = wire(&uncapped).len();

    let capped_cfg = ContextStrategyConfig {
        tool_result_cap: Some(50),
        ..uncapped_cfg
    };
    let (capped, _) =
        build_send_context_with_regions(&prov(), &ctx, prior_len, &capped_cfg);
    let capped_bytes = wire(&capped).len();

    assert!(
        capped_bytes < uncapped_bytes,
        "capping should reduce payload size: uncapped={uncapped_bytes} capped={capped_bytes}"
    );
    assert!(
        uncapped_bytes - capped_bytes > 3000,
        "cap should drop at least 3KB across two tool results: uncapped={uncapped_bytes} capped={capped_bytes}"
    );
    let capped_str = wire(&capped);
    assert!(
        capped_str.contains("[truncated ") && capped_str.contains("bytes]"),
        "missing truncation marker: {capped_str}"
    );
}

#[test]
fn build_send_context_cap_zero_is_passthrough() {
    let big = "y".repeat(2000);
    let prior = vec![
        json(r#"{"role": "user", "content": "u1"}"#),
        json(r#"{"role": "assistant", "content": "a1"}"#),
        json(r#"{"role": "user", "content": "u2"}"#),
        json(r#"{"role": "assistant", "content": "calling", "tool_calls": [{"id":"1","type":"function","function":{"name":"bash","arguments":"{}"}}]}"#),
        json(r#"{"role": "tool", "tool_call_id": "1"}"#).with("content", Json::text(&big)),
    ];
    let prior_len = prior.len();
    let cfg_none = ContextStrategyConfig {
        mode: ContextStrategy::SlidingWindow,
        window: 5,
        note_window: Some(5),
        tool_result_cap: None,
    };
    let cfg_zero = ContextStrategyConfig {
        tool_result_cap: Some(0),
        ..cfg_none
    };
    let (a, _) = build_send_context_with_regions(&prov(), &prior, prior_len, &cfg_none);
    let (b, _) = build_send_context_with_regions(&prov(), &prior, prior_len, &cfg_zero);
    assert_eq!(
        wire(&a),
        wire(&b),
        "Some(0) must behave identically to None"
    );
}

#[test]
fn every_message_has_a_region() {
    let ctx = vec![
        json(r#"{"role": "user", "content": "u1"}"#),
        json(r#"{"role": "assistant", "content": "a1"}"#),
        json(r#"{"role": "user", "content": "u2"}"#),
    ];
    for mode in [ContextStrategy::Full, ContextStrategy::SlidingWindow] {
        for prior_len in 0..5 {
            let cfg = ContextStrategyConfig {
                mode,
                window: 1,
                note_window: None,
                tool_result_cap: Some(10),
            };
            let (sent, regions) = build_send_context_with_regions(&prov(), &ctx, prior_len, &cfg);
            assert_eq!(sent.len(), regions.len());
        }
    }
}

#[test]
fn messages_are_cleaned_to_their_text() {
    let calling = json(
        r#"{"role": "assistant", "content": "hm", "tool_calls": [{"id": "1", "function": {"name": "bash", "arguments": "{}"}}]}"#,
    );
    let cleaned = format_cleaned_message(&prov(), &calling).unwrap();
    assert_eq!(cleaned.get_str("content"), Some("hm"));
    assert!(cleaned.get("tool_calls").is_none());
    let silent = json(r#"{"role": "assistant", "content": ""}"#);
    assert!(format_cleaned_message(&prov(), &silent).is_none());
    let user = json(r#"{"role": "user", "content": "hi"}"#);
    let cleaned = format_cleaned_message(&anthropic(), &user).unwrap();
    assert_eq!(pick(&cleaned, "content/0/text").as_str(), Some("hi"));
}

#[test]
fn a_history_is_compacted_to_its_last_pairs() {
    let history = vec![
        Message::user("u1"),
        Message::assistant("a1"),
        Message::user("u2"),
        Message {
            role: Role::Assistant,
            content: vec![ContentBlock::ToolUse {
                id: "t".to_string(),
                name: "bash".to_string(),
                input: json("{}"),
            }],
        },
        Message::assistant("a2"),
        Message::user("u3"),
    ];
    let kept = compact_history_heuristic(&history, 1);
    let texts: Vec<String> = kept.iter().map(|m| m.text()).collect();
    assert_eq!(texts, vec!["u2", "a2"]);
    assert!(matches!(kept[0].role, Role::User));
    assert_eq!(compact_history_heuristic(&history, 9).len(), 4);
    assert_eq!(compact_history_heuristic(&history, 0).len(), 0);
}

#[test]
fn the_text_of_a_message_is_read() {
    let plain = json(r#"{"role": "user", "content": "hello"}"#);
    assert_eq!(extract_message_text(&plain), "hello");
    let blocks = json(
        r#"{"role": "user", "content": [{"type": "text", "text": "a"}, {"type": "image"}, {"type": "text", "text": "b"}]}"#,
    );
    assert_eq!(extract_message_text(&blocks), "a\nb");
    assert!(is_turn_start(&plain));
    let note = json(r#"{"role": "user", "content": "[History note] x"}"#);
    assert!(is_history_note(&note));
    assert!(!is_turn_start(&note));
    assert!(!is_turn_start(&json(r#"{"role": "assistant", "content": "x"}"#)));
}

#[test]
fn the_last_turns_are_found() {
    let msgs = [
        json(r#"{"role": "user", "content": "u1"}"#),
        json(r#"{"role": "assistant", "content": "a1"}"#),
        json(r#"{"role": "user", "content": "u2"}"#),
        json(r#"{"role": "assistant", "content": "a2"}"#),
    ];
    assert_eq!(verbatim_start_index(&msgs, 0), 4);
    assert_eq!(verbatim_start_index(&msgs, 1), 2);
    assert_eq!(verbatim_start_index(&msgs, 2), 0);
    assert_eq!(verbatim_start_index(&msgs, 7), 0);
    let pairs = extract_pairs(&msgs);
    assert_eq!(pairs.len(), 2);
    assert_eq!(pairs[1].said, "u2");
    assert_eq!(pairs[1].texts, vec!["a2"]);
    assert_eq!(
        shown(&extract_user_assistant_pairs(&msgs, 1, None)),
        vec![r#"{"content":"u2","role":"user"}"#, r#"{"content":"a2","role":"assistant"}"#]
    );
}

#[test]
fn texts_are_cut_between_characters() {
    assert_eq!(truncate_text("abc", 3), "abc");
    assert!(truncate_text("abcdef", 3).starts_with("abc"));
    assert!(truncate_text("abcdef", 3).contains("[truncated 3 bytes]"));
    assert!(truncate_text("éé", 3).starts_with("é"));
    assert!(truncate_text("éé", 3).contains("[truncated 2 bytes]"));
}

#[test]
fn cutting_down_twice_changes_nothing() {
    let mut msgs = vec![json(r#"{"role": "user", "content": "[History note] old"}"#)];
    let mut history = vec![Message::assistant("hello")];
    for i in 0..4 {
        msgs.push(json(&format!(r#"{{"role": "user", "content": "u{i}"}}"#)));
        msgs.push(json(&format!(r#"{{"role": "user", "content": "[History note] before {i}"}}"#)));
        msgs.push(json(&format!(
            r#"{{"role": "assistant", "content": "a{i}", "tool_calls": [{{"id": "{i}", "type": "function", "function": {{"name": "bash", "arguments": "{{}}"}}}}]}}"#
        )));
        msgs.push(json(&format!(
            r#"{{"role": "tool", "tool_call_id": "{i}", "content": "out {i}"}}"#
        )));
        msgs.push(json(&format!(r#"{{"role": "assistant", "content": "b{i}"}}"#)));
        history.push(Message::user(&format!("u{i}")));
        history.push(Message::assistant(&format!("a{i}")));
        history.push(Message::assistant(&format!("b{i}")));
    }
    for keep in 0..6 {
        let once = extract_user_assistant_pairs(&msgs, keep, None);
        assert!(extract_pairs(&once).len() <= keep);
        assert_eq!(shown(&extract_user_assistant_pairs(&once, keep, None)), shown(&once));
        let texts = |messages: &[Message]| -> Vec<String> {
            messages.iter().map(|m| m.text()).collect()
        };
        let once = compact_history_heuristic(&history, keep);
        assert!(once.len() <= 2 * keep);
        assert_eq!(texts(&compact_history_heuristic(&once, keep)), texts(&once));
    }
}

#[test]
fn renders_user_assistant_tool_sequence() {
    let ctx = [
        json(r#"{"role": "user", "content": "fix bug"}"#),
        json(
            r#"{"role": "assistant", "content": "I'll start", "reasoning_content": "thinking...", "tool_calls": [{"id": "1", "type": "function", "function": {"name": "bash", "arguments": "{}"}}]}"#,
        ),
        json(r#"{"role": "tool", "tool_call_id": "1", "content": "output"}"#),
        json(r#"{"role": "assistant", "content": "Done."}"#),
    ];
    let rendered = render_raw_context_as_text(&ctx);
    assert!(rendered.contains("USER: fix bug"));
    assert!(rendered.contains("ASSISTANT: I'll start"));
    assert!(rendered.contains("bash() → output"));
    assert!(rendered.contains("Done."));
    assert_eq!(
        rendered,
        "USER: fix bug\n\nASSISTANT: I'll start\nbash() → output\nDone."
    );
}

#[test]
fn truncates_long_tool_results() {
    let long = "x".repeat(2000);
    let ctx = [
        json(r#"{"role": "user", "content": "u1"}"#),
        json(
            r#"{"role": "assistant", "content": "", "tool_calls": [{"id": "1", "type": "function", "function": {"name": "bash", "arguments": "{}"}}]}"#,
        ),
        json(&format!(r#"{{"role": "tool", "tool_call_id": "1", "content": "{long}"}}"#)),
    ];
    let rendered = render_raw_context_as_text(&ctx);
    assert!(rendered.len() < 700);
    assert!(rendered.contains("…"));
}

#[test]
fn skips_unknown_roles_and_empty_content() {
    let ctx = [
        json(r#"{"role": "system", "content": "ignored"}"#),
        json(r#"{"role": "user", "content": ""}"#),
        json(r#"{"role": "user", "content": "real"}"#),
        json(r#"{"role": "assistant", "content": "reply"}"#),
    ];
    let rendered = render_raw_context_as_text(&ctx);
    assert!(!rendered.contains("ignored"));
    assert!(rendered.contains("USER: real"));
    assert!(rendered.contains("ASSISTANT: reply"));
}

#[test]
fn cutting_down_keeps_notes_on_tool_calls() {
    let in_chat_form = [
        json(r#"{"role": "user", "content": "u1"}"#),
        json(
            r#"{"role": "assistant", "content": "a1", "tool_calls": [{"id": "1", "type": "function", "function": {"name": "bash", "arguments": "{\"timeout\":5,\"command\":\"ls\"}"}}]}"#,
        ),
        json(r#"{"role": "tool", "tool_call_id": "1", "content": "ok"}"#),
        json(r#"{"role": "assistant", "content": "b1"}"#),
    ];
    let in_blocks = [
        json(r#"{"role": "user", "content": [{"type": "text", "text": "u1"}]}"#),
        json(
            r#"{"role": "assistant", "content": [{"type": "text", "text": "a1"}, {"type": "tool_use", "id": "1", "name": "bash", "input": {"command": "ls", "timeout": 5}}]}"#,
        ),
        json(
            r#"{"role": "user", "content": [{"type": "tool_result", "tool_use_id": "1", "content": "ok"}]}"#,
        ),
        json(r#"{"role": "assistant", "content": [{"type": "text", "text": "b1"}]}"#),
    ];
    for msgs in [&in_chat_form, &in_blocks] {
        let kept = extract_user_assistant_pairs(msgs, 3, None);
        let texts: Vec<&str> = kept.iter().filter_map(|m| m.get_str("content")).collect();
        assert_eq!(
            texts,
            vec![
                "u1",
                "[History note] assistant tool calls: bash(command=\"ls\", timeout=5) → ok",
                "a1\nb1",
            ]
        );
        assert!(is_history_note(&kept[1]));
        assert_eq!(shown(&extract_user_assistant_pairs(&kept, 3, None)), shown(&kept));
        let bare = extract_user_assistant_pairs(msgs, 3, Some(0));
        let texts: Vec<&str> = bare.iter().filter_map(|m| m.get_str("content")).collect();
        assert_eq!(texts, vec!["u1", "a1\nb1"]);
        let history = history_of(msgs);
        assert_eq!(history.len(), 2);
        assert_eq!(history[1].text(), "a1\nb1");
    }
    let only_tools = extract_user_assistant_pairs(&in_chat_form[..1], 3, None);
    assert!(only_tools.is_empty());
}

#[test]
fn fewer_pairs_are_the_end_of_more() {
    let mut history = vec![];
    for i in 0..4 {
        history.push(Message::user(&format!("u{i}")));
        history.push(Message::assistant(&format!("a{i}")));
    }
    let kept = |keep: usize| -> Vec<String> {
        compact_history_heuristic(&history, keep).iter().map(|m| m.text()).collect()
    };
    assert!(kept(0).is_empty());
    for more in 0..6 {
        for fewer in 0..=more {
            assert!(kept(more).ends_with(&kept(fewer)));
        }
    }
}
