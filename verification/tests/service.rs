use jyc_agent::json::{parse_json, Json};
use jyc_agent::message::{Attachment, InboundMessage};
use jyc_agent::order::comes_before;
use jyc_agent::provider::select::{ModelDef, ProviderDef};
use jyc_agent::service::config::{
    derive_agent_config, find_pattern, is_plan, model_override_from_files, override_file,
    resolve_context_window, resolve_mode, resolve_model, resolve_small_model, ChannelPattern,
    ModelNames,
};
use jyc_agent::service::prompt::{
    additional_read_roots, additional_write_roots, build_system_prompt, build_user_blocks,
    build_user_prompt_text, expand_path, format_user_prompt, images_to_read, join_path,
    thinking_enabled, ChannelInfo, LoadedImage, BUILD_MODE, BUILD_REMINDER, PLAN_MODE,
    PLAN_REMINDER,
};
use jyc_agent::service::result::{
    agent_result, is_reset_due, reset_context, reset_message, CompressionMode,
};
use jyc_agent::service::skills::{
    choose_skills, format_skills_section, parse_skill_frontmatter, skill_dirs,
    skill_names_text, SkillBase, SkillMeta,
};
use jyc_agent::service::tools::{
    base_layer, disabled_tool_names, merge_names, model_to_call, offers_tool, partition_tools,
    resolve_servers, server_label, should_skip, McpLayer,
};
use jyc_agent::types::ContentBlock;

fn names(items: &[&str]) -> Vec<String> {
    items.iter().map(|item| item.to_string()).collect()
}

fn models(model: Option<&str>) -> ModelNames {
    ModelNames { model: model.map(|s| s.to_string()), ..ModelNames::default() }
}

fn pattern(name: &str) -> ChannelPattern {
    ChannelPattern { name: name.to_string(), ..ChannelPattern::default() }
}

fn resolved_model(patterns: &[ChannelPattern], name: &str, config: Option<&str>) -> Option<String> {
    let found = find_pattern(patterns, Some(name));
    resolve_model(None, None, found.map(|p| &p.models), &models(config), None)
}

#[test]
fn pattern_model_override_is_resolved() {
    let mut p = pattern("my-pattern");
    p.models = models(Some("provider/model-from-pattern"));
    let resolved = resolved_model(&[p], "my-pattern", Some("provider/default-model"));
    assert_eq!(resolved.as_deref(), Some("provider/model-from-pattern"));
}

#[test]
fn fallback_to_config_model_when_pattern_has_no_model() {
    let resolved =
        resolved_model(&[pattern("no-override")], "no-override", Some("provider/default-model"));
    assert_eq!(resolved.as_deref(), Some("provider/default-model"));
}

#[test]
fn fallback_to_config_model_when_no_pattern_matches() {
    let mut p = pattern("other-pattern");
    p.models = models(Some("provider/other-model"));
    let resolved = resolved_model(&[p], "unmatched-name", Some("provider/default-model"));
    assert_eq!(resolved.as_deref(), Some("provider/default-model"));
}

#[test]
fn pattern_model_none_and_config_none_yields_none() {
    assert_eq!(resolved_model(&[], "anything", None), None);
}

#[test]
fn first_matching_pattern_wins_with_duplicate_names() {
    let mut first = pattern("dup");
    first.models = models(Some("provider/first"));
    let mut second = pattern("dup");
    second.models = models(Some("provider/second"));
    let patterns = vec![first, second];
    let found = find_pattern(&patterns, Some("dup")).and_then(|p| p.models.model.as_deref());
    assert_eq!(found, Some("provider/first"));
    assert_eq!(
        resolved_model(&patterns, "dup", Some("provider/default")).as_deref(),
        Some("provider/first")
    );
}

fn model_def(window: Option<u64>) -> ModelDef {
    ModelDef {
        model_id: None,
        context_window: window,
        supports_images: Some(true),
        params: None,
        user_agent: None,
        cache_ttl: None,
    }
}

fn openai(models: Vec<(String, ModelDef)>) -> Vec<(String, ProviderDef)> {
    vec![(
        "openai".to_string(),
        ProviderDef {
            provider_type: "openai-compatible".to_string(),
            base_url: Some("http://api.example.com".to_string()),
            api_key: None,
            api_key_env: Some("TEST_KEY".to_string()),
            context_window: Some(8000),
            supports_images: None,
            params: None,
            user_agent: None,
            cache_ttl: None,
            models,
        },
    )]
}

#[test]
fn reload_picks_up_new_model_context_window_without_restart() {
    let before = openai(vec![]);
    assert_eq!(before[0].1.context_window, Some(8000));
    assert_eq!(resolve_context_window("openai/gpt-4", &before, 1), 8000);
    assert_eq!(resolve_context_window("openai/gpt-4-new", &before, 1), 8000);
    let after = openai(vec![("gpt-4-new".to_string(), model_def(Some(128000)))]);
    assert_eq!(resolve_context_window("openai/gpt-4-new", &after, 1), 128000);
    assert_eq!(after[0].1.models[0].1.supports_images, Some(true));
    assert_eq!(resolve_context_window("other/m", &after, 1), 1);
    assert_eq!(resolve_context_window("no-slash", &after, 1), 1);
}

#[test]
fn derive_agent_config_applies_channel_overrides() {
    let config = ModelNames {
        model: Some("global/main".to_string()),
        small_model: Some("global/small".to_string()),
        ..ModelNames::default()
    };
    let channels = vec![(
        "test".to_string(),
        ModelNames {
            model: Some("override/main".to_string()),
            small_model: Some("override/small".to_string()),
            ..ModelNames::default()
        },
    )];
    let cfg = derive_agent_config(&config, &channels, "test");
    assert_eq!(cfg.model.as_deref(), Some("override/main"));
    assert_eq!(cfg.small_model.as_deref(), Some("override/small"));
    let cfg2 = derive_agent_config(&config, &channels, "other");
    assert_eq!(cfg2.model.as_deref(), Some("global/main"));
    assert_eq!(cfg2.small_model.as_deref(), Some("global/small"));
}

const BUILTIN: [&str; 5] = ["bash", "read", "write", "jyc_reply_message", "jyc_send_message"];

/// The tools without a server that are offered.
fn offered(patterns: Vec<ChannelPattern>, channel: Option<Vec<String>>, name: Option<&str>) -> Vec<&'static str> {
    let p = find_pattern(&patterns, name);
    let disabled = disabled_tool_names(
        channel.as_ref(),
        p.and_then(|p| p.disabled_tools.as_ref()),
        p.and_then(|p| p.disabled_builtin_tools.as_ref()),
    );
    BUILTIN.into_iter().filter(|tool| offers_tool(&disabled, None, tool)).collect()
}

fn disabling(tools: &[&str]) -> Vec<ChannelPattern> {
    let mut p = pattern("test");
    p.disabled_tools = Some(names(tools));
    vec![p]
}

#[test]
fn disabled_tools_removes_builtin_and_bridge() {
    let names = offered(disabling(&["bash", "jyc_send_message"]), None, Some("test"));
    assert!(!names.contains(&"bash"), "bash should be disabled");
    assert!(!names.contains(&"jyc_send_message"), "jyc_send_message should be disabled");
    assert!(names.contains(&"read"), "read should still be available");
    assert!(names.contains(&"jyc_reply_message"), "reply_message should still be available");
}

#[test]
fn disabled_builtin_tools_alias_works() {
    let mut p = pattern("test");
    p.disabled_builtin_tools = Some(names(&["write"]));
    let names = offered(vec![p], None, Some("test"));
    assert!(!names.contains(&"write"), "write should be disabled via alias");
    assert!(names.contains(&"read"), "read should still be available");
}

#[test]
fn channel_and_pattern_disabled_tools_merged() {
    let names = offered(disabling(&["write"]), Some(names(&["bash"])), Some("test"));
    assert!(!names.contains(&"bash"), "bash should be disabled (channel-level)");
    assert!(!names.contains(&"write"), "write should be disabled (pattern-level)");
    assert!(names.contains(&"read"), "read should still be available");
}

#[test]
fn disabled_mcp_servers_skips_matching_server() {
    let mut p = pattern("test");
    p.disabled_mcp_servers = Some(names(&["invoice"]));
    let disabled = merge_names(Some(&names(&["other"])), p.disabled_mcp_servers.as_ref());
    assert_eq!(disabled, names(&["other", "invoice"]));
    assert!(resolve_servers(&vec![], &vec![], McpLayer::Global, false, &disabled).is_empty());
    let tools = offered(vec![p], None, Some("test"));
    assert!(tools.contains(&"bash"));
    assert!(tools.contains(&"jyc_reply_message"));
}

#[test]
fn channel_disabled_tools_works_without_pattern_match() {
    let tools = offered(vec![], Some(names(&["bash"])), None);
    assert!(!tools.contains(&"bash"), "bash should be disabled (channel-level)");
    assert!(tools.contains(&"read"), "read should still be available");
}

#[test]
fn empty_disabled_tools_disables_nothing() {
    let tools = offered(disabling(&[]), Some(vec![]), Some("test"));
    assert!(tools.contains(&"bash"), "bash should still be available");
    assert!(tools.contains(&"jyc_reply_message"));
}

#[test]
fn disabled_tools_deduplicates_between_channel_and_pattern() {
    let tools = offered(disabling(&["bash"]), Some(names(&["bash"])), Some("test"));
    assert!(!tools.contains(&"bash"));
    assert!(tools.contains(&"read"));
    assert_eq!(
        disabled_tool_names(Some(&names(&["bash"])), Some(&names(&["bash"])), None),
        names(&["bash"])
    );
}

#[test]
fn disabled_mcp_servers_filters_channel_configs() {
    let configured = names(&["skip_me"]);
    let disabled = merge_names(None, Some(&names(&["skip_me"])));
    let used = resolve_servers(&configured, &configured, base_layer(false, true), false, &disabled);
    assert!(used.is_empty());
}

#[test]
fn disabled_tools_server_prefix_does_not_affect_builtin() {
    let tools = offered(disabling(&["some_server/bash"]), None, Some("test"));
    assert!(
        tools.contains(&"bash"),
        "built-in bash should NOT be disabled by server/tool prefix"
    );
    assert!(tools.contains(&"read"), "read should still be available");
}

#[test]
fn disabled_tools_mixed_plain_and_server_prefix() {
    let tools = offered(disabling(&["bash", "some_server/product_list"]), None, Some("test"));
    assert!(!tools.contains(&"bash"), "plain 'bash' should disable built-in bash");
    assert!(tools.contains(&"read"), "read should still be available");
    let (of_servers, plain) = partition_tools(&names(&["bash", "some_server/product_list"]));
    assert_eq!(plain, names(&["bash"]));
    assert_eq!(of_servers, names(&["some_server/product_list"]));
    assert!(should_skip(&of_servers, Some("some_server"), "product_list"));
    assert!(!should_skip(&of_servers, Some("other"), "product_list"));
    assert!(!should_skip(&of_servers, None, "product_list"));
}

#[test]
fn servers_come_from_the_closest_layer() {
    assert!(matches!(base_layer(true, true), McpLayer::Pattern));
    assert!(matches!(base_layer(false, true), McpLayer::Channel));
    assert!(matches!(base_layer(false, false), McpLayer::Global));
    let base = names(&["a", "b"]);
    let effective = names(&["a", "c", "bad"]);
    let used = resolve_servers(&effective, &base, McpLayer::Channel, false, &names(&["bad"]));
    let labels: Vec<String> = used.iter().map(|(name, layer)| server_label(name, *layer)).collect();
    assert_eq!(used.len(), 2);
    assert!(matches!(used[0].1, McpLayer::Channel));
    assert!(matches!(used[1].1, McpLayer::TopicOverride));
    assert!(labels[0].starts_with("a"));
    let used = resolve_servers(&effective, &base, McpLayer::Channel, true, &vec![]);
    assert!(matches!(used[0].1, McpLayer::TopicReplace));
}

#[test]
fn a_model_is_needed() {
    assert_eq!(model_to_call(Some("a/b"), Some("c/d")), Ok("a/b".to_string()));
    assert_eq!(model_to_call(None, Some("c/d")), Ok("c/d".to_string()));
    assert!(model_to_call(None, None).is_err());
}

fn skill(name: &str, path: &str) -> SkillMeta {
    let mut meta =
        parse_skill_frontmatter(&format!("---\nname: {name}\ndescription: {name} skill\n---\n")).unwrap();
    meta.source_path = path.to_string();
    meta
}

fn skills(items: &[&str]) -> Vec<SkillMeta> {
    items.iter().map(|name| skill(name, name)).collect()
}

#[test]
fn discover_skills_include_filter_retains_only_matched() {
    let skills =
        choose_skills(skills(&["alpha", "beta", "gamma"]), Some(&names(&["alpha", "gamma"])), None);
    assert_eq!(skills.len(), 2);
    assert!(skills.iter().any(|s| s.name == "alpha"));
    assert!(skills.iter().any(|s| s.name == "gamma"));
    assert!(!skills.iter().any(|s| s.name == "beta"));
}

#[test]
fn discover_skills_exclude_filter_removes_matched() {
    let skills = choose_skills(skills(&["alpha", "beta", "gamma"]), None, Some(&names(&["beta"])));
    assert_eq!(skills.len(), 2);
    assert!(skills.iter().any(|s| s.name == "alpha"));
    assert!(skills.iter().any(|s| s.name == "gamma"));
    assert!(!skills.iter().any(|s| s.name == "beta"));
}

#[test]
fn discover_skills_include_and_exclude_combined() {
    let skills = choose_skills(
        skills(&["alpha", "beta", "gamma", "delta"]),
        Some(&names(&["alpha", "beta", "gamma"])),
        Some(&names(&["beta"])),
    );
    assert_eq!(skills.len(), 2);
    assert!(skills.iter().any(|s| s.name == "alpha"));
    assert!(skills.iter().any(|s| s.name == "gamma"));
    assert!(!skills.iter().any(|s| s.name == "beta"));
    assert!(!skills.iter().any(|s| s.name == "delta"));
}

#[test]
fn channel_skills_applied_when_no_pattern_match() {
    let channel_skills = Some(names(&["alpha"]));
    let skills = choose_skills(skills(&["alpha", "beta"]), channel_skills.as_ref(), None);
    assert_eq!(skills.len(), 1);
    assert_eq!(skills[0].name, "alpha");
}

#[test]
fn pattern_skills_override_channel_skills() {
    let mut p = pattern("test-pattern");
    p.skills = Some(names(&["gamma"]));
    let patterns = vec![p];
    let channel_skills = Some(names(&["alpha"]));
    let wanted = find_pattern(&patterns, Some("test-pattern"))
        .and_then(|p| p.skills.as_ref())
        .or(channel_skills.as_ref());
    let skills = choose_skills(skills(&["alpha", "beta", "gamma"]), wanted, None);
    assert_eq!(skills.len(), 1);
    assert_eq!(skills[0].name, "gamma");
}

#[test]
fn channel_and_pattern_disabled_skills_merged() {
    let exclude = merge_names(Some(&names(&["alpha"])), Some(&names(&["beta"])));
    let skills = choose_skills(skills(&["alpha", "beta", "gamma"]), None, Some(&exclude));
    assert_eq!(skills.len(), 1);
    assert_eq!(skills[0].name, "gamma");
}

#[test]
fn no_filters_loads_all_skills() {
    let skills = choose_skills(skills(&["alpha", "beta"]), None, None);
    assert_eq!(skills.len(), 2);
}

#[test]
fn skills_are_sorted_and_the_last_of_a_name_counts() {
    let chosen = choose_skills(
        vec![skill("b", "first"), skill("a", "x"), skill("b", "second")],
        None,
        None,
    );
    assert_eq!(chosen.len(), 2);
    assert_eq!(chosen[0].name, "a");
    assert_eq!(chosen[1].source_path, "second");
    assert!(comes_before("a", "b"));
    assert!(comes_before("a", "aa"));
    assert!(!comes_before("b", "a"));
}

#[test]
fn the_head_of_a_skill_is_read() {
    let meta = parse_skill_frontmatter("---\nname: x\ndescription: does things\nother: y\n---\nbody").unwrap();
    assert_eq!(meta.name, "x");
    assert_eq!(meta.description, "does things");
    let folded = parse_skill_frontmatter("---\nname: x\ndescription: >\n  one\n  two\n---\n").unwrap();
    assert_eq!(folded.description, "one two");
    let block = parse_skill_frontmatter("---\ndescription: |\n  one\n\n  two\nname: a\n---\n").unwrap();
    assert_eq!(block.name, "a");
    assert_eq!(block.description, "one two");
    let ended =
        parse_skill_frontmatter("---\nname: a\ndescription: >\n  one\n---\nname: b\n").unwrap();
    assert_eq!(ended.name, "a");
    assert_eq!(ended.description, "one");
    assert!(parse_skill_frontmatter("# no head").is_none());
    assert!(parse_skill_frontmatter("---\ndescription: d\n---\n").is_none());
}

#[test]
fn skills_are_listed_in_the_prompt() {
    assert_eq!(format_skills_section(&[]), "");
    let text = format_skills_section(&skills(&["alpha"]));
    assert!(text.contains("alpha"));
    assert!(text.contains("alpha skill"));
    assert_eq!(
        skill_names_text(&skills(&["alpha", "beta"])),
        Some("[\n  \"alpha\",\n  \"beta\"\n]".to_string())
    );
}

#[test]
fn later_skill_directories_are_closer() {
    let dirs = skill_dirs(true, true, ".assistant");
    assert!(matches!(dirs[0].0, SkillBase::Home));
    assert!(matches!(dirs[dirs.len() - 1].0, SkillBase::Topic));
    assert!(dirs.iter().any(|(_, path)| path.contains(".assistant")));
    let without = skill_dirs(false, false, ".assistant");
    assert!(without.iter().all(|(base, _)| !matches!(base, SkillBase::Home | SkillBase::Global)));
}

fn message(text: &str, metadata: &str) -> InboundMessage {
    InboundMessage {
        sender: "test-sender".to_string(),
        sender_address: "test@example.com".to_string(),
        topic: "test".to_string(),
        timestamp_secs: 1_700_000_000,
        timestamp_nanos: 0,
        metadata: parse_json(metadata).unwrap(),
        text: Some(text.to_string()),
        markdown: None,
        attachments: vec![],
    }
}

#[test]
fn build_user_prompt_injects_build_mode_tag() {
    let message = message("hello world", "{}");
    let plan_prompt = build_user_prompt_text(&message, Some("plan")).unwrap();
    assert!(
        plan_prompt.contains("CRITICAL: Current mode: PLAN (read-only"),
        "plan mode prompt should contain PLAN tag, got: {plan_prompt}"
    );
    let build_prompt = build_user_prompt_text(&message, None).unwrap();
    assert!(
        build_prompt.contains("Current mode: BUILD (full execution)"),
        "build mode prompt should contain BUILD tag, got: {build_prompt}"
    );
}

#[test]
fn build_user_prompt_shows_source_with_require_reply() {
    let message = message(
        "do work",
        r#"{"source_channel": "feishu_bot", "source_topic": "greenfield", "require_reply": true}"#,
    );
    let prompt = build_user_prompt_text(&message, None).unwrap();
    assert!(
        prompt.contains("**Source:** channel \"feishu_bot\", topic \"greenfield\""),
        "prompt should contain Source header, got: {prompt}"
    );
    assert!(
        prompt.contains("⚠️ Reply requested"),
        "prompt should contain reply-requested indicator, got: {prompt}"
    );
}

#[test]
fn build_user_prompt_shows_source_without_require_reply() {
    let message = message(
        "do work",
        r#"{"source_channel": "feishu_bot", "source_topic": "greenfield", "require_reply": false}"#,
    );
    let prompt = build_user_prompt_text(&message, None).unwrap();
    assert!(
        prompt.contains("**Source:** channel \"feishu_bot\", topic \"greenfield\""),
        "prompt should contain Source header, got: {prompt}"
    );
    assert!(
        !prompt.contains("⚠️ Reply requested"),
        "prompt should NOT contain reply-requested indicator, got: {prompt}"
    );
}

#[test]
fn build_user_prompt_no_source_without_metadata() {
    let prompt = build_user_prompt_text(&message("hello", "{}"), None).unwrap();
    assert!(
        !prompt.contains("**Source:**"),
        "prompt should NOT contain Source header for normal messages, got: {prompt}"
    );
}

#[test]
fn the_date_of_a_message_is_shown() {
    let prompt = build_user_prompt_text(&message("hello", "{}"), None).unwrap();
    assert!(prompt.contains("2023-11-14T22:13:20+00:00"), "got: {prompt}");
    assert!(prompt.ends_with(BUILD_MODE));
    assert!(format_user_prompt(&message("hello", "{}"), "today", Some("plan")).contains("today"));
    let mut never = message("hello", "{}");
    never.timestamp_secs = i64::MAX;
    assert!(build_user_prompt_text(&never, None).is_none());
}

#[test]
fn pattern_mode_plan_resolved_when_no_file_override() {
    let mut p = pattern("test");
    p.mode = Some("plan".to_string());
    let resolved = resolve_mode(None, p.mode.as_deref());
    assert_eq!(resolved.as_deref(), Some("plan"));
    assert!(is_plan(resolved.as_deref()));
}

#[test]
fn pattern_mode_build_resolved_when_no_file_override() {
    let mut p = pattern("test");
    p.mode = Some("build".to_string());
    let resolved = resolve_mode(None, p.mode.as_deref());
    assert_eq!(resolved.as_deref(), Some("build"));
}

#[test]
fn pattern_mode_defaults_to_build_when_unset() {
    let p = pattern("test");
    let resolved = resolve_mode(None, p.mode.as_deref()).unwrap_or("build".to_string());
    assert_eq!(resolved, "build");
    assert!(!is_plan(None));
}

#[test]
fn file_override_takes_priority_over_pattern_mode() {
    let mut p = pattern("test");
    p.mode = Some("plan".to_string());
    let resolved = resolve_mode(Some("build"), p.mode.as_deref());
    assert_eq!(resolved.as_deref(), Some("build"));
}

#[test]
fn pattern_mode_plan_injects_plan_tag_in_user_prompt() {
    let mut p = pattern("my-pattern");
    p.mode = Some("plan".to_string());
    let patterns = vec![p];
    let found = find_pattern(&patterns, Some("my-pattern"));
    let resolved = resolve_mode(None, found.and_then(|p| p.mode.as_deref()));
    let plan_prompt =
        build_user_prompt_text(&message("hello world", "{}"), resolved.as_deref()).unwrap();
    assert!(
        plan_prompt.contains("CRITICAL: Current mode: PLAN (read-only"),
        "plan mode prompt should contain PLAN tag, got: {plan_prompt}"
    );
    assert!(plan_prompt.ends_with(PLAN_MODE));
}

#[test]
fn a_model_in_a_file_counts_first() {
    let config = models(Some("c/m"));
    let topic = models(Some("t/m"));
    assert_eq!(
        resolve_model(Some("f/m".to_string()), Some(&topic), None, &config, None).as_deref(),
        Some("f/m")
    );
    assert_eq!(resolve_model(None, Some(&topic), None, &config, None).as_deref(), Some("t/m"));
    let planning = ModelNames { plan_model: Some("p/m".to_string()), ..models(Some("c/m")) };
    assert_eq!(resolve_model(None, None, None, &planning, Some("plan")).as_deref(), Some("p/m"));
    assert_eq!(resolve_model(None, None, None, &planning, Some("build")).as_deref(), Some("c/m"));
    let small = ModelNames { small_model: Some("s/m".to_string()), ..ModelNames::default() };
    assert_eq!(resolve_small_model(Some(&small), None, &config).as_deref(), Some("s/m"));
    assert_eq!(resolve_small_model(None, None, &config), None);
    assert_eq!(override_file(Some("plan")), "plan-model-override");
    assert_eq!(override_file(None), "build-model-override");
    assert_eq!(
        model_override_from_files(Some(Some("x/y".to_string())), None).as_deref(),
        Some("x/y")
    );
    assert_eq!(
        model_override_from_files(None, Some(Some("g/m".to_string()))).as_deref(),
        Some("g/m")
    );
    assert_eq!(model_override_from_files(None, None), None);
}

#[test]
fn the_system_prompt_tells_the_mode() {
    let channels = vec![ChannelInfo {
        name: "work".to_string(),
        kind: "feishu".to_string(),
        topics: names(&["t1"]),
    }];
    let plan = build_system_prompt(
        "/w/t",
        &skills(&["alpha"]),
        Some("AGENTS RULES"),
        Some("REPO RULES"),
        Some(&channels),
        true,
        Some("plan"),
    );
    assert!(plan.contains("/w/t"));
    assert!(plan.contains("AGENTS RULES"));
    assert!(plan.contains("REPO RULES"));
    assert!(plan.contains("work"));
    assert!(plan.contains("jyc_send_message"));
    assert!(plan.contains(PLAN_REMINDER));
    let build = build_system_prompt("/w/t", &[], None, None, None, false, None);
    assert!(build.contains(BUILD_REMINDER));
    assert!(!build.contains(PLAN_REMINDER));
    assert!(!build.contains("AGENTS RULES"));
}

fn with_image() -> InboundMessage {
    let mut message = message("look", "{}");
    message.attachments = vec![
        Attachment {
            content_type: "image/png".to_string(),
            saved_path: Some("/tmp/a.png".to_string()),
        },
        Attachment {
            content_type: "application/pdf".to_string(),
            saved_path: Some("/tmp/b.pdf".to_string()),
        },
        Attachment { content_type: "image/png".to_string(), saved_path: None },
    ];
    message
}

#[test]
fn images_are_added_to_the_prompt() {
    let message = with_image();
    let wanted = images_to_read(&message, true, true);
    assert_eq!(wanted.len(), 1);
    assert!(wanted[0].0 == "/tmp/a.png" || wanted[0].1 == "/tmp/a.png");
    assert!(images_to_read(&message, false, true).is_empty());
    assert!(images_to_read(&message, true, false).is_empty());
    let images = vec![LoadedImage { media_type: "image/png".to_string(), bytes: b"hi!".to_vec() }];
    let blocks = build_user_blocks("p".to_string(), &message, true, true, &images);
    assert_eq!(blocks.len(), 2);
    match &blocks[1] {
        ContentBlock::Image { source } => assert!(format!("{source:?}").contains("aGkh")),
        other => panic!("expected an image, got {other:?}"),
    }
    let blocks = build_user_blocks("p".to_string(), &message, false, true, &[]);
    assert!(blocks.iter().all(|b| matches!(b, ContentBlock::Text { .. })));
}

#[test]
fn paths_are_expanded() {
    assert_eq!(expand_path("~/x", Some("/home/u")), "/home/u/x");
    assert_eq!(expand_path("~/x", None), "~/x");
    assert_eq!(expand_path("/abs", Some("/home/u")), "/abs");
    assert_eq!(join_path("/a", "b"), "/a/b");
    let write = names(&["~/w"]);
    let read = names(&["/r"]);
    let roots = additional_read_roots(names(&["/o"]), &read, &write, Some("/home/u"));
    let writable = additional_write_roots(&write, Some("/home/u"));
    assert_eq!(writable, names(&["/home/u/w"]));
    assert!(writable.iter().all(|root| roots.contains(root)));
    assert!(roots.contains(&"/o".to_string()));
    assert!(roots.contains(&"/r".to_string()));
}

#[test]
fn thinking_is_on_unless_switched_off() {
    assert!(thinking_enabled(None));
    assert!(thinking_enabled(Some("show")));
    assert!(!thinking_enabled(Some(" hide\n")));
}

#[test]
fn the_result_tells_how_the_reply_went_out() {
    let result = agent_result(true, false, Some("sent".to_string()), "text".to_string());
    assert!(result.reply_sent_by_tool);
    let result = agent_result(false, false, None, "text".to_string());
    assert_eq!(result.reply_text.as_deref(), Some("text"));
    let auto = agent_result(true, true, Some("t\n\n— auto-delivered".to_string()), "t".to_string());
    assert!(auto.reply_auto_delivered);
    assert_eq!(auto.reply_text.as_deref(), Some("t\n\n— auto-delivered"));
    assert_eq!(reset_message(CompressionMode::Nothing), "mode=none");
    assert_eq!(reset_message(CompressionMode::Heuristic), "mode=heuristic");
    assert_eq!(reset_message(CompressionMode::Llm), "mode=llm");
}

#[test]
fn a_full_conversation_is_reset() {
    assert!(is_reset_due(10, Some(10)));
    assert!(!is_reset_due(9, Some(10)));
    assert!(!is_reset_due(9, None));
    let said = |role: &str, text: &str| {
        Json::object().with("role", Json::text(role)).with("content", Json::text(text))
    };
    let raw = vec![
        said("user", "u1"),
        said("assistant", "a1"),
        said("user", "u2"),
        said("assistant", "a2"),
    ];
    assert!(reset_context(&raw, CompressionMode::Nothing, 3).is_empty());
    let kept = reset_context(&raw, CompressionMode::Heuristic, 1);
    assert_eq!(kept.len(), 2);
    assert_eq!(kept[0].get_str("content"), Some("u2"));
}
