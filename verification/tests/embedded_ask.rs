use jyc_agent::agent_loop::embedded_ask::{find_embedded_ask, remove_span, strip_malformed, EmbeddedAsk};

fn well_formed(text: &str) -> Option<(String, Vec<String>, Option<u64>)> {
    match find_embedded_ask(text)? {
        EmbeddedAsk::WellFormed {
            question,
            options,
            timeout_secs,
            ..
        } => Some((question, options, timeout_secs)),
        EmbeddedAsk::Malformed { .. } => None,
    }
}

#[test]
fn parses_documented_form() {
    let ask = well_formed(
        "方案如上。\n<ask_user question=\"开工吗？\" options=\"按方案, 再想想\" timeout_seconds=\"60\">",
    )
    .expect("documented comma-separated form must parse");
    assert_eq!(ask.0, "开工吗？");
    assert_eq!(ask.1, vec!["按方案".to_string(), "再想想".to_string()]);
    assert_eq!(ask.2, Some(60));
}

#[test]
fn parses_misquoted_per_item_form() {
    let ask = well_formed(
        "<ask_user question=\"修复方案如上，是否开工？\" options=\"按方案 1+2+3 全部开工\", \"只修根因 1，2/3 以后再说\", \"方案要调整（回复说明）\">",
    )
    .expect("misquoted per-item form must still parse");
    assert_eq!(ask.0, "修复方案如上，是否开工？");
    assert_eq!(
        ask.1,
        vec![
            "按方案 1+2+3 全部开工".to_string(),
            "只修根因 1，2/3 以后再说".to_string(),
            "方案要调整（回复说明）".to_string(),
        ]
    );
    assert_eq!(ask.2, None);
}

#[test]
fn attribute_values_containing_key_words_do_not_confuse_the_parser() {
    let ask = well_formed(
        "<ask_user question=\"这两个 options 选哪个？\" options=\"a, b\" timeout_seconds=\"30\">",
    )
    .expect("question text mentioning options must still parse");
    assert_eq!(ask.0, "这两个 options 选哪个？");
    assert_eq!(ask.1, vec!["a".to_string(), "b".to_string()]);
    assert_eq!(ask.2, Some(30));

    let ask = well_formed("<ask_user options=\"question, 其他\" question=\"q\">")
        .expect("options text mentioning question must still parse");
    assert_eq!(ask.0, "q");
    assert_eq!(ask.1, vec!["question".to_string(), "其他".to_string()]);
}

#[test]
fn missing_question_is_malformed() {
    match find_embedded_ask("<ask_user options=\"a, b\">").expect("tag must be found") {
        EmbeddedAsk::Malformed { span } => {
            assert_eq!(span, 0.."<ask_user options=\"a, b\">".len());
        }
        _ => panic!("missing question must be malformed"),
    }
}

#[test]
fn unterminated_tag_is_malformed_to_end_of_text() {
    let text = "prose\n<ask_user question=\"q\" options=\"a";
    match find_embedded_ask(text).expect("tag must be found") {
        EmbeddedAsk::Malformed { span } => assert_eq!(span, 6..text.len()),
        _ => panic!("unterminated tag must be malformed"),
    }
}

#[test]
fn no_tag_returns_none() {
    assert!(find_embedded_ask("普通回复，没有工具调用。").is_none());
    assert!(find_embedded_ask("看看 </ask_user> 这个闭合影不影响").is_none());
    assert!(find_embedded_ask("提一嘴 <ask_user_profile> 别的工具").is_none());
}

#[test]
fn remove_span_cleans_the_seam() {
    let text = "第一行方案。\n\n<ask_user question=\"q\" options=\"a, b\">\n";
    let ask = find_embedded_ask(text).expect("tag must be found");
    let EmbeddedAsk::WellFormed { span, .. } = ask else {
        panic!("must be well-formed");
    };
    assert_eq!(remove_span(text, span), "第一行方案。");
}

#[test]
fn a_slash_does_not_end_the_name() {
    assert!(find_embedded_ask("<ask_user/ question=\"q\" options=\"a\">").is_none());
}

#[test]
fn timeout_is_read_under_either_name() {
    let ask = well_formed("<ask_user question=\"q\" options=\"a\" timeout=\" 15 \">").unwrap();
    assert_eq!(ask.2, Some(15));
    let ask =
        well_formed("<ask_user question=\"q\" options=\"a\" timeout_seconds=\"soon\" timeout=\"5\">").unwrap();
    assert_eq!(ask.2, None);
}

#[test]
fn options_without_content_are_malformed() {
    assert!(well_formed("<ask_user question=\"q\" options=\" , \">").is_none());
    assert!(well_formed("<ask_user question=\"  \" options=\"a\">").is_none());
}

#[test]
fn a_quoted_angle_bracket_does_not_end_the_tag() {
    let ask = well_formed("<ask_user question=\"a > b?\" options=\"yes, no\">").unwrap();
    assert_eq!(ask.0, "a > b?");
}

#[test]
fn malformed_tags_are_all_stripped() {
    let text = "one <ask_user options=\"a\"> two <ask_user> three";
    assert_eq!(strip_malformed(text), "one  two  three");
    assert_eq!(strip_malformed("plain text"), "plain text");
    let asked = "x <ask_user question=\"q\" options=\"a\">";
    assert_eq!(strip_malformed(asked), asked);
}

#[test]
fn spans_count_bytes() {
    let text = "方案 <ask_user>";
    match find_embedded_ask(text).unwrap() {
        EmbeddedAsk::Malformed { span } => {
            assert_eq!(span, 7..text.len());
            assert_eq!(remove_span(text, span), "方案");
        }
        _ => panic!("a tag without attributes must be malformed"),
    }
}
