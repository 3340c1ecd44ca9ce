use jyc_agent::bridge::attachments::{attachment_base_name, sanitize_attachment_filename};
use jyc_agent::bridge::config::{default_base_url, equal_ignoring_case, BridgeConfig, Route};
use jyc_agent::bridge::replies::{goes_to_user, ReplyTargets};
use jyc_agent::bridge::router::{any_listed, forward_for};
use jyc_agent::bridge::ws::{
    authorization, channel_url, choose_url, parse_reply, InboundFrame,
};
use jyc_agent::json::{parse_json, Json};
use jyc_agent::message::InboundMessage;

fn route(chat_name: &str, chat_id: Option<&str>, channel: Option<&str>, thread: &str) -> Route {
    Route {
        chat_name: chat_name.to_string(),
        chat_id: chat_id.map(|s| s.to_string()),
        channel: channel.map(|s| s.to_string()),
        thread: thread.to_string(),
        mentions: None,
    }
}

fn test_config() -> BridgeConfig {
    let mut cfg = BridgeConfig::new("feishu", "cli_x", "s");
    cfg.channel = "feishu_bot".to_string();
    let mut invoice = route("invoice", None, None, "invoice-processing");
    invoice.mentions = Some(vec!["jyc".to_string()]);
    cfg.routes = vec![route("greenfield", None, Some("channel-b"), "thread-xxx"), invoice];
    cfg
}

#[test]
fn route_maps_chat_to_channel_and_thread() {
    let cfg = test_config();
    let r = cfg.route("greenfield", "oc_1").unwrap();
    assert_eq!(r.channel.as_deref(), Some("channel-b"));
    assert_eq!(r.thread, "thread-xxx");
}

#[test]
fn route_falls_back_to_default_channel() {
    let cfg = test_config();
    let r = cfg.route("invoice", "oc_2").unwrap();
    assert_eq!(r.channel, None);
    assert_eq!(r.thread, "invoice-processing");
    assert_eq!(cfg.channel, "feishu_bot");
}

#[test]
fn route_is_case_insensitive() {
    let cfg = test_config();
    assert_eq!(cfg.route("GreenField", "").unwrap().thread, "thread-xxx");
    assert!(equal_ignoring_case("GreenField", "greenfield"));
    assert!(!equal_ignoring_case("greenfield", "greenfields"));
}

#[test]
fn route_matches_by_chat_id_fallback() {
    let mut cfg = BridgeConfig::new("feishu", "a", "b");
    cfg.routes = vec![route("greenfield", Some("oc_greenfield"), None, "thread-xxx")];
    let r = cfg.route("", "oc_greenfield").unwrap();
    assert_eq!(r.thread, "thread-xxx");
    assert!(cfg.route("", "oc_other").is_none());
}

#[test]
fn route_unknown_chat_returns_none() {
    let cfg = test_config();
    assert!(cfg.route("some-other-group", "oc_x").is_none());
}

#[test]
fn channels_is_union_of_default_and_routes() {
    let cfg = test_config();
    let channels = cfg.channels();
    assert_eq!(channels.len(), 2);
    assert!(channels.contains(&"feishu_bot".to_string()));
    assert!(channels.contains(&"channel-b".to_string()));
}

#[test]
fn defaults_apply() {
    let cfg = test_config();
    assert_eq!(cfg.base_url, "https://open.feishu.cn");
    assert_eq!(default_base_url(), cfg.base_url);
    assert!(cfg.command.is_none());
    assert!(cfg.jyc_url.is_none());
    assert_eq!(cfg.routes[1].mentions.as_deref(), Some(&["jyc".to_string()][..]));
}

#[test]
fn the_first_of_two_routes_counts() {
    let mut cfg = test_config();
    cfg.routes.push(route("greenfield", None, None, "never"));
    assert_eq!(cfg.route("GREENFIELD", "").unwrap().thread, "thread-xxx");
}

fn message(
    chat_name: &str,
    chat_id: &str,
    chat_type: &str,
    mentions: &[(&str, &str)],
) -> InboundMessage {
    let mut metadata = Json::object()
        .with("chat_name", Json::text(chat_name))
        .with("chat_id", Json::text(chat_id))
        .with("chat_type", Json::text(chat_type));
    if !mentions.is_empty() {
        let list: Vec<String> = mentions
            .iter()
            .map(|(id, name)| {
                Json::object().with("id", Json::text(id)).with("name", Json::text(name)).to_text()
            })
            .collect();
        let list = parse_json(&format!("[{}]", list.join(","))).unwrap();
        metadata = metadata.with("mentions", list);
    }
    InboundMessage {
        sender: "张三".to_string(),
        sender_address: "ou_sender".to_string(),
        topic: chat_name.to_string(),
        timestamp_secs: 0,
        timestamp_nanos: 0,
        metadata,
        text: Some("hello".to_string()),
        markdown: None,
        attachments: vec![],
    }
}

fn cfg() -> BridgeConfig {
    let mut cfg = BridgeConfig::new("feishu", "a", "b");
    cfg.channel = "feishu_bot".to_string();
    cfg.routes = vec![
        route("greenfield", Some("oc_greenfield"), Some("channel-b"), "thread-xxx"),
        route("张三", None, None, "p2p-thread"),
    ];
    cfg
}

#[test]
fn routes_group_message_and_defaults_channel() {
    let f = forward_for(&cfg(), &message("greenfield", "oc_greenfield", "group", &[])).unwrap();
    assert_eq!(f.channel, "channel-b");
    assert_eq!(f.thread, "thread-xxx");
    assert_eq!(f.receive_id, "oc_greenfield");
    assert_eq!(f.receive_id_type, "chat_id");
    assert_eq!(f.sender.as_deref(), Some("张三"));
}

#[test]
fn routes_p2p_message_to_user_open_id() {
    let f = forward_for(&cfg(), &message("张三", "ou_zhang", "p2p", &[])).unwrap();
    assert_eq!(f.thread, "p2p-thread");
    assert_eq!(f.channel, "feishu_bot");
    assert_eq!(f.receive_id, "ou_zhang");
    assert_eq!(f.receive_id_type, "open_id");
    assert!(goes_to_user(&f.receive_id_type));
}

#[test]
fn routes_by_chat_id_when_name_missing() {
    let f = forward_for(&cfg(), &message("", "oc_greenfield", "group", &[])).unwrap();
    assert_eq!(f.thread, "thread-xxx");
}

#[test]
fn drops_unrouted_chat() {
    assert!(forward_for(&cfg(), &message("other", "oc_x", "group", &[])).is_none());
}

#[test]
fn mentions_filter_requires_mention() {
    let mut cfg = BridgeConfig::new("feishu", "a", "b");
    let mut only = route("greenfield", None, None, "t");
    only.mentions = Some(vec!["jyc".to_string()]);
    cfg.routes = vec![only];
    assert!(
        forward_for(&cfg, &message("greenfield", "oc", "group", &[("ou_user", "user")])).is_none()
    );
    let f = forward_for(&cfg, &message("greenfield", "oc", "group", &[("ou_bot", "jyc")])).unwrap();
    assert_eq!(f.thread, "t");
    assert!(
        forward_for(&cfg, &message("greenfield", "oc", "group", &[("jyc", "bot")])).is_some()
    );
    assert!(forward_for(&cfg, &message("greenfield", "oc", "group", &[])).is_none());
    assert!(any_listed(&vec!["b".to_string()], &vec!["a".to_string(), "b".to_string()]));
    assert!(!any_listed(&vec![], &vec!["a".to_string()]));
}

#[test]
fn messages_go_to_served_channels_only() {
    let cfg = cfg();
    let channels = cfg.channels();
    for (name, id) in [("greenfield", "x"), ("张三", "y"), ("", "oc_greenfield")] {
        let f = forward_for(&cfg, &message(name, id, "group", &[])).unwrap();
        assert!(channels.contains(&f.channel));
    }
}

#[test]
fn inbound_frame_serializes_with_optional_sender() {
    let frame = InboundFrame::message(
        "thread-xxx",
        "hi",
        Some("张三".to_string()),
        Some("ou_abc".to_string()),
    );
    let v = frame.to_json();
    assert_eq!(v.get_str("type"), Some("message"));
    assert_eq!(v.get_str("thread"), Some("thread-xxx"));
    assert_eq!(v.get_str("text"), Some("hi"));
    assert_eq!(v.get_str("sender"), Some("张三"));
    assert_eq!(v.get_str("sender_address"), Some("ou_abc"));
}

#[test]
fn inbound_frame_omits_none_sender() {
    let frame = InboundFrame::message("t", "hi", None, None);
    let s = frame.to_json().to_text();
    assert!(!s.contains("sender"));
    assert_eq!(s, r#"{"text":"hi","thread":"t","type":"message"}"#);
    assert!(InboundFrame::close("t").to_json().to_text().contains("/close -y"));
}

#[test]
fn parse_reply_accepts_reply_frame() {
    let reply = parse_reply(r#"{"type":"reply","thread":"t1","text":"done"}"#).unwrap();
    assert_eq!(reply.thread, "t1");
    assert_eq!(reply.text, "done");
}

#[test]
fn parse_reply_ignores_activity_frames() {
    assert!(
        parse_reply(r#"{"type":"activity","channel":"ch","thread":"t1","entry":{}}"#).is_none()
    );
    assert!(parse_reply("not json").is_none());
    let own = InboundFrame::message("t", "hi", None, None).to_json().to_text();
    assert!(parse_reply(&own).is_none());
}

#[test]
fn addresses_are_built() {
    assert_eq!(channel_url("ws://h:1/", "c"), "ws://h:1/ws/c");
    assert_eq!(channel_url("ws://h:1", "c"), "ws://h:1/ws/c");
    assert_eq!(authorization("tok"), "Bearer tok");
    assert_eq!(choose_url(Some("ws://env"), Some("ws://cfg")).as_deref(), Some("ws://env"));
    assert_eq!(choose_url(Some(""), Some("ws://cfg")).as_deref(), Some("ws://cfg"));
    assert_eq!(choose_url(None, None), None);
}

#[test]
fn replies_go_back_to_the_chat_they_answer() {
    let cfg = cfg();
    let mut targets = ReplyTargets::new();
    let group = forward_for(&cfg, &message("greenfield", "oc_greenfield", "group", &[])).unwrap();
    let user = forward_for(&cfg, &message("张三", "ou_zhang", "p2p", &[])).unwrap();
    targets.remember(&group);
    targets.remember(&user);
    assert_eq!(targets.target("channel-b", "thread-xxx").unwrap().receive_id, "oc_greenfield");
    assert_eq!(targets.target("feishu_bot", "p2p-thread").unwrap().receive_id_type, "open_id");
    assert!(targets.target("feishu_bot", "thread-xxx").is_none());
    assert_eq!(
        targets.threads_of("ou_zhang"),
        vec![("feishu_bot".to_string(), "p2p-thread".to_string())]
    );
    let moved = forward_for(&cfg, &message("greenfield", "oc_other", "group", &[])).unwrap();
    targets.remember(&moved);
    assert_eq!(targets.target("channel-b", "thread-xxx").unwrap().receive_id, "oc_other");
    assert!(targets.threads_of("oc_greenfield").is_empty());
}

#[test]
fn attachment_names_have_no_directories() {
    assert_eq!(attachment_base_name("../../etc/passwd").as_deref(), Some("passwd"));
    assert_eq!(attachment_base_name("  "), None);
    assert_eq!(attachment_base_name("a\\b.txt").as_deref(), Some("b.txt"));
    assert_eq!(attachment_base_name("report.pdf").as_deref(), Some("report.pdf"));
    assert_eq!(sanitize_attachment_filename(Some("report.pdf")), "report.pdf");
    assert_eq!(sanitize_attachment_filename(Some("")), "unnamed_attachment");
    assert_eq!(sanitize_attachment_filename(None), "unnamed_attachment");
}

#[test]
fn the_case_of_mentions_does_not_matter() {
    let mut cfg = BridgeConfig::new("feishu", "a", "b");
    let mut only = route("greenfield", None, None, "t");
    only.mentions = Some(vec!["JyC".to_string()]);
    cfg.routes = vec![only];
    assert!(
        forward_for(&cfg, &message("greenfield", "oc", "group", &[("ou_bot", "jYc")])).is_some()
    );
    assert!(
        forward_for(&cfg, &message("greenfield", "oc", "group", &[("ou_bot", "jyd")])).is_none()
    );
}
