//! OpenAI's Responses API.
//!
//! The system prompt is sent as `instructions`, and the conversation as a list
//! of items: messages, function calls and their outputs. Conversations are
//! kept in the Chat Completions form and turned into items when they are sent.
use crate::json::{
    Json, JsonView, items_view, json_as_text, lemma_array_view, lemma_object_view, object2,
    parse_json, text_as_json, with_field,
};
use crate::provider::anthropic::with_params;
use crate::provider::messages::{
    calls_of, field_is, filter_valid_messages, repaired, says, sendable,
};
use crate::provider::normalize::{anthropic_to_chat_messages, chat_forms};
use crate::provider::openai_compat::{
    answer_json, build_openai_raw_assistant, build_openai_tool_result, build_openai_user_content,
    call_json, image_url, kept_calls, labeled, safe_arguments, tool_json, user_json,
};
use crate::provider::params::{merge_params, params_view};
use crate::provider::stream::{SseItem, StepView, StreamStep};
use crate::provider::usage::{count, count_in};
use crate::text::{
    contains, join2, mentions, option_str, option_text, owned, same, strip_trailing, trim, trimmed,
    without_trailing,
};
use crate::types::{
    BlockView, ContentBlock, EventView, ImageSource, Message, MessageView, Role, StreamEvent,
    ToolDefinition, ToolView, blocks_text, blocks_view, call_views, events_view, option_events,
    tools_view,
};
use std::collections::VecDeque;
use vstd::prelude::*;
use vstd::string::*;

verus! {

/// A part that is text.
pub open spec fn text_part(kind: Seq<char>, text: Seq<char>) -> JsonView {
    object2("type"@, JsonView::Text(kind), "text"@, JsonView::Text(text))
}

/// A part that is an image.
pub open spec fn input_image(url: Seq<char>) -> JsonView {
    object2("type"@, JsonView::Text("input_image"@), "image_url"@, JsonView::Text(url))
}

/// A message item.
pub open spec fn message_item(role: Seq<char>, parts: Seq<JsonView>) -> JsonView {
    with_field(
        object2("type"@, JsonView::Text("message"@), "role"@, JsonView::Text(role)),
        "content"@,
        JsonView::Array(parts),
    )
}

/// The item of a text that the model has said.
pub open spec fn said_item(text: Seq<char>) -> JsonView {
    message_item("assistant"@, seq![text_part("output_text"@, text)])
}

/// The item of a function call.
pub open spec fn call_item(id: Seq<char>, name: Seq<char>, arguments: Seq<char>) -> JsonView {
    with_field(
        with_field(
            object2("type"@, JsonView::Text("function_call"@), "call_id"@, JsonView::Text(id)),
            "name"@,
            JsonView::Text(name),
        ),
        "arguments"@,
        JsonView::Text(arguments),
    )
}

/// The item of a function's output.
pub open spec fn output_item(id: Seq<char>, output: Seq<char>) -> JsonView {
    with_field(
        object2("type"@, JsonView::Text("function_call_output"@), "call_id"@, JsonView::Text(id)),
        "output"@,
        JsonView::Text(output),
    )
}

/// The parts of a message of the user: its text and its images.
pub open spec fn block_parts(blocks: Seq<BlockView>) -> Seq<JsonView>
    decreases blocks.len(),
{
    if blocks.len() == 0 {
        Seq::empty()
    } else {
        let before = block_parts(blocks.drop_last());
        match blocks.last() {
            BlockView::Text { text } => before.push(text_part("input_text"@, text)),
            BlockView::Image { source } => before.push(input_image(image_url(source))),
            _ => before,
        }
    }
}

/// The function calls among the blocks of a message.
pub open spec fn block_call_items(blocks: Seq<BlockView>) -> Seq<JsonView>
    decreases blocks.len(),
{
    if blocks.len() == 0 {
        Seq::empty()
    } else {
        let before = block_call_items(blocks.drop_last());
        match blocks.last() {
            BlockView::ToolUse { id, name, input } => before.push(
                call_item(id, name, json_as_text(input)),
            ),
            _ => before,
        }
    }
}

/// What the model has said, as items: nothing where it said nothing.
pub open spec fn said_items(text: Seq<char>) -> Seq<JsonView> {
    if text.len() > 0 {
        seq![said_item(text)]
    } else {
        Seq::empty()
    }
}

/// The items of a message.
pub open spec fn message_items(message: MessageView) -> Seq<JsonView> {
    match message.role {
        Role::User => seq![message_item("user"@, block_parts(message.content))],
        Role::Assistant => said_items(blocks_text(message.content)) + block_call_items(
            message.content,
        ),
        Role::Tool => if message.content.len() > 0 && message.content[0] is ToolResult {
            seq![
                output_item(
                    message.content[0]->tool_use_id,
                    message.content[0]->ToolResult_content,
                ),
            ]
        } else {
            seq![message_item("user"@, block_parts(message.content))]
        },
    }
}

/// The string in the field `name`, or `otherwise`.
pub open spec fn text_or(json: JsonView, name: Seq<char>, otherwise: Seq<char>) -> Seq<char> {
    match json.text_field(name) {
        Some(s) => s,
        None => otherwise,
    }
}

/// The string in the field `name` of the object in the field `outer`, or
/// `otherwise`.
pub open spec fn inner_text_or(
    json: JsonView,
    outer: Seq<char>,
    name: Seq<char>,
    otherwise: Seq<char>,
) -> Seq<char> {
    match json.field(outer) {
        Some(inner) => text_or(inner, name, otherwise),
        None => otherwise,
    }
}

/// The parts of a kept message: its text and its images.
pub open spec fn kept_parts(parts: Seq<JsonView>) -> Seq<JsonView>
    decreases parts.len(),
{
    if parts.len() == 0 {
        Seq::empty()
    } else {
        let before = kept_parts(parts.drop_last());
        let part = parts.last();
        if says(part, "type"@, "text"@) {
            before.push(text_part("input_text"@, text_or(part, "text"@, ""@)))
        } else if says(part, "type"@, "image_url"@) {
            before.push(input_image(inner_text_or(part, "image_url"@, "url"@, ""@)))
        } else {
            before
        }
    }
}

/// The items of a kept message of the user or the system.
pub open spec fn prompt_items(role: Seq<char>, message: JsonView) -> Seq<JsonView> {
    match message.field("content"@) {
        Some(JsonView::Text(text)) => seq![
            message_item(role, seq![text_part("input_text"@, text)]),
        ],
        Some(JsonView::Array(parts)) => if kept_parts(parts).len() > 0 {
            seq![message_item(role, kept_parts(parts))]
        } else {
            Seq::empty()
        },
        _ => Seq::empty(),
    }
}

/// The items of kept tool calls. A call without an id or a name is left out.
pub open spec fn kept_call_items(calls: Seq<JsonView>) -> Seq<JsonView>
    decreases calls.len(),
{
    if calls.len() == 0 {
        Seq::empty()
    } else {
        let before = kept_call_items(calls.drop_last());
        let call = calls.last();
        let id = text_or(call, "id"@, ""@);
        let name = inner_text_or(call, "function"@, "name"@, ""@);
        if id.len() > 0 && name.len() > 0 {
            before.push(call_item(id, name, inner_text_or(call, "function"@, "arguments"@, "{}"@)))
        } else {
            before
        }
    }
}

/// What a tool answered, as text.
pub open spec fn output_text(message: JsonView) -> Seq<char> {
    match message.field("content"@) {
        Some(JsonView::Text(s)) => s,
        Some(other) => json_as_text(other),
        None => Seq::empty(),
    }
}

/// The items of a kept message.
pub open spec fn kept_items(message: JsonView) -> Seq<JsonView> {
    if says(message, "role"@, "user"@) {
        prompt_items("user"@, message)
    } else if says(message, "role"@, "system"@) {
        prompt_items("system"@, message)
    } else if says(message, "role"@, "assistant"@) {
        said_items(text_or(message, "content"@, ""@)) + match message.array_field("tool_calls"@) {
            Some(calls) => kept_call_items(calls),
            None => Seq::empty(),
        }
    } else if says(message, "role"@, "tool"@) {
        if text_or(message, "tool_call_id"@, ""@).len() > 0 {
            seq![output_item(text_or(message, "tool_call_id"@, ""@), output_text(message))]
        } else {
            Seq::empty()
        }
    } else {
        Seq::empty()
    }
}

/// The items of kept messages, in order.
pub open spec fn all_kept_items(messages: Seq<JsonView>) -> Seq<JsonView>
    decreases messages.len(),
{
    if messages.len() == 0 {
        Seq::empty()
    } else {
        all_kept_items(messages.drop_last()) + kept_items(messages.last())
    }
}

/// The items of messages, in order.
pub open spec fn all_message_items(messages: Seq<MessageView>) -> Seq<JsonView>
    decreases messages.len(),
{
    if messages.len() == 0 {
        Seq::empty()
    } else {
        all_message_items(messages.drop_last()) + message_items(messages.last())
    }
}

/// A part that is text.
fn make_text_part(kind: &str, text: &str) -> (r: Json)
    ensures
        r@ == text_part(kind@, text@),
{
    Json::object().with("type", Json::text(kind)).with("text", Json::text(text))
}

/// A part that is an image.
fn make_image_part(url: &str) -> (r: Json)
    ensures
        r@ == input_image(url@),
{
    Json::object().with("type", Json::text("input_image")).with("image_url", Json::text(url))
}

/// A message item.
fn make_message_item(role: &str, parts: Vec<Json>) -> (r: Json)
    ensures
        r@ == message_item(role@, items_view(parts@)),
{
    broadcast use lemma_array_view;
    Json::object().with("type", Json::text("message")).with("role", Json::text(role)).with(
        "content",
        Json::Array(parts),
    )
}

/// A message item of one part.
fn make_single_item(role: &str, part: Json) -> (r: Json)
    ensures
        r@ == message_item(role@, seq![part@]),
{
    let mut parts: Vec<Json> = Vec::new();
    parts.push(part);
    assert(items_view(parts@) =~= seq![part@]);
    make_message_item(role, parts)
}

/// The item of a function call.
fn make_call_item(id: &str, name: &str, arguments: &str) -> (r: Json)
    ensures
        r@ == call_item(id@, name@, arguments@),
{
    Json::object().with("type", Json::text("function_call")).with("call_id", Json::text(id)).with(
        "name",
        Json::text(name),
    ).with("arguments", Json::text(arguments))
}

/// The item of a function's output.
fn make_output_item(id: &str, output: &str) -> (r: Json)
    ensures
        r@ == output_item(id@, output@),
{
    Json::object().with("type", Json::text("function_call_output")).with(
        "call_id",
        Json::text(id),
    ).with("output", Json::text(output))
}

/// The item of a message of the user.
pub fn user_message_item(content: &[ContentBlock]) -> (r: Json)
    ensures
        r@ == message_item("user"@, block_parts(blocks_view(content@))),
{
    let ghost views = blocks_view(content@);
    let mut parts: Vec<Json> = Vec::new();
    let mut i: usize = 0;
    assert(items_view(parts@) =~= Seq::empty());
    while i < content.len()
        invariant
            views == blocks_view(content@),
            i <= content@.len(),
            items_view(parts@) == block_parts(views.take(i as int)),
        decreases content@.len() - i,
    {
        let ghost before = items_view(parts@);
        proof {
            assert(views.take(i + 1).drop_last() =~= views.take(i as int));
            assert(views.take(i + 1).last() == content@[i as int]@);
        }
        let piece: Option<Json> = match &content[i] {
            ContentBlock::Text { text } => Some(make_text_part("input_text", text.as_str())),
            ContentBlock::Image { source } => {
                let url: String = match source {
                    ImageSource::Base64 { media_type, data } => "data:".to_owned().concat(
                        media_type.as_str(),
                    ).concat(";base64,").concat(data.as_str()),
                    ImageSource::Url { url } => url.clone(),
                };
                Some(make_image_part(url.as_str()))
            },
            _ => None,
        };
        if let Some(piece) = piece {
            parts.push(piece);
            assert(items_view(parts@) =~= before.push(piece@));
        }
        i += 1;
    }
    assert(views.take(content@.len() as int) =~= views);
    make_message_item("user", parts)
}

/// The items of a message. One message can become several: a text and one item
/// for each tool call.
pub fn message_to_responses_input(message: &Message) -> (r: Vec<Json>)
    ensures
        items_view(r@) == message_items(message@),
{
    let mut items: Vec<Json> = Vec::new();
    match message.role {
        Role::User => {
            items.push(user_message_item(message.content.as_slice()));
            assert(items_view(items@) =~= message_items(message@));
        },
        Role::Assistant => {
            let text = message.text();
            if !text.as_str().is_empty() {
                items.push(
                    make_single_item("assistant", make_text_part("output_text", text.as_str())),
                );
            }
            let ghost head = items_view(items@);
            assert(head =~= said_items(text@));
            let ghost views = message@.content;
            let mut i: usize = 0;
            assert(head + Seq::<JsonView>::empty() =~= head);
            while i < message.content.len()
                invariant
                    views == blocks_view(message.content@),
                    i <= message.content@.len(),
                    items_view(items@) == head + block_call_items(views.take(i as int)),
                decreases message.content@.len() - i,
            {
                let ghost before = items_view(items@);
                proof {
                    assert(views.take(i + 1).drop_last() =~= views.take(i as int));
                    assert(views.take(i + 1).last() == message.content@[i as int]@);
                }
                if let ContentBlock::ToolUse { id, name, input } = &message.content[i] {
                    let item = make_call_item(id.as_str(), name.as_str(), input.to_text().as_str());
                    items.push(item);
                    assert(items_view(items@) =~= before.push(item@));
                    assert(before.push(item@) =~= head + block_call_items(views.take(i as int)).push(
                        item@,
                    ));
                }
                i += 1;
            }
            assert(views.take(message.content@.len() as int) =~= views);
        },
        Role::Tool => {
            if message.content.len() > 0 {
                assert(message@.content[0] == message.content@[0]@);
                if let ContentBlock::ToolResult { tool_use_id, content, .. } = &message.content[0] {
                    items.push(make_output_item(tool_use_id.as_str(), content.as_str()));
                    assert(items_view(items@) =~= message_items(message@));
                    return items;
                }
            }
            items.push(user_message_item(message.content.as_slice()));
            assert(items_view(items@) =~= message_items(message@));
        },
    }
    items
}

/// The string in the field `name`, or `otherwise`.
fn str_or<'a>(json: &'a Json, name: &str, otherwise: &'a str) -> (r: &'a str)
    ensures
        r@ == text_or(json@, name@, otherwise@),
{
    match json.get_str(name) {
        Some(s) => s,
        None => otherwise,
    }
}

/// The string in the field `name` of the object in the field `outer`, or
/// `otherwise`.
fn inner_str_or<'a>(json: &'a Json, outer: &str, name: &str, otherwise: &'a str) -> (r: &'a str)
    ensures
        r@ == inner_text_or(json@, outer@, name@, otherwise@),
{
    match json.get(outer) {
        Some(inner) => str_or(inner, name, otherwise),
        None => otherwise,
    }
}

/// The parts of a kept message.
fn convert_parts(parts: &Vec<Json>) -> (r: Vec<Json>)
    ensures
        items_view(r@) == kept_parts(items_view(parts@)),
{
    let ghost views = items_view(parts@);
    let mut out: Vec<Json> = Vec::new();
    let mut i: usize = 0;
    assert(items_view(out@) =~= Seq::empty());
    while i < parts.len()
        invariant
            views == items_view(parts@),
            i <= parts@.len(),
            items_view(out@) == kept_parts(views.take(i as int)),
        decreases parts@.len() - i,
    {
        let ghost before = items_view(out@);
        let piece = &parts[i];
        proof {
            assert(views.take(i + 1).drop_last() =~= views.take(i as int));
            assert(views.take(i + 1).last() == piece@);
        }
        if field_is(piece, "type", "text") {
            let item = make_text_part("input_text", str_or(piece, "text", ""));
            out.push(item);
            assert(items_view(out@) =~= before.push(item@));
        } else if field_is(piece, "type", "image_url") {
            let item = make_image_part(inner_str_or(piece, "image_url", "url", ""));
            out.push(item);
            assert(items_view(out@) =~= before.push(item@));
        }
        i += 1;
    }
    assert(views.take(parts@.len() as int) =~= views);
    out
}

/// The items of a kept message of the user or the system.
fn convert_prompt(role: &str, message: &Json) -> (r: Vec<Json>)
    ensures
        items_view(r@) == prompt_items(role@, message@),
{
    broadcast use {lemma_array_view, lemma_object_view};
    let mut items: Vec<Json> = Vec::new();
    assert(items_view(items@) =~= Seq::empty());
    if let Some(content) = message.get("content") {
        match content {
            Json::Text(text) => {
                let item = make_single_item(role, make_text_part("input_text", text.as_str()));
                items.push(item);
                assert(items_view(items@) =~= seq![item@]);
            },
            Json::Array(parts) => {
                let converted = convert_parts(parts);
                if converted.len() > 0 {
                    let item = make_message_item(role, converted);
                    items.push(item);
                    assert(items_view(items@) =~= seq![item@]);
                }
            },
            _ => {},
        }
    }
    items
}

/// Appends the items of kept tool calls.
fn convert_calls(calls: &Vec<Json>, items: &mut Vec<Json>)
    ensures
        items_view(final(items)@) == items_view(old(items)@) + kept_call_items(items_view(calls@)),
{
    let ghost views = items_view(calls@);
    let ghost start = items_view(items@);
    let mut i: usize = 0;
    assert(start + Seq::<JsonView>::empty() =~= start);
    while i < calls.len()
        invariant
            views == items_view(calls@),
            i <= calls@.len(),
            items_view(items@) == start + kept_call_items(views.take(i as int)),
        decreases calls@.len() - i,
    {
        let ghost before = items_view(items@);
        let call = &calls[i];
        proof {
            assert(views.take(i + 1).drop_last() =~= views.take(i as int));
            assert(views.take(i + 1).last() == call@);
            reveal_strlit("");
        }
        let id = str_or(call, "id", "");
        let name = inner_str_or(call, "function", "name", "");
        if !id.is_empty() && !name.is_empty() {
            let item = make_call_item(id, name, inner_str_or(call, "function", "arguments", "{}"));
            items.push(item);
            assert(items_view(items@) =~= before.push(item@));
            assert(before.push(item@) =~= start + kept_call_items(views.take(i as int)).push(item@));
        }
        i += 1;
    }
    assert(views.take(calls@.len() as int) =~= views);
}

/// The items of a kept message.
fn convert_message(message: &Json) -> (r: Vec<Json>)
    ensures
        items_view(r@) == kept_items(message@),
{
    broadcast use {lemma_array_view, lemma_object_view};
    proof {
        reveal_strlit("");
    }
    if field_is(message, "role", "user") {
        return convert_prompt("user", message);
    }
    if field_is(message, "role", "system") {
        return convert_prompt("system", message);
    }
    let mut items: Vec<Json> = Vec::new();
    if field_is(message, "role", "assistant") {
        let text = str_or(message, "content", "");
        if !text.is_empty() {
            items.push(make_single_item("assistant", make_text_part("output_text", text)));
        }
        assert(items_view(items@) =~= said_items(text@));
        if let Some(calls) = message.get_array("tool_calls") {
            convert_calls(calls, &mut items);
        } else {
            assert(said_items(text@) + Seq::<JsonView>::empty() =~= said_items(text@));
        }
    } else if field_is(message, "role", "tool") {
        let id = str_or(message, "tool_call_id", "");
        let output: String = match message.get("content") {
            Some(content) => match content {
                Json::Text(s) => s.clone(),
                other => other.to_text(),
            },
            None => String::new(),
        };
        if !id.is_empty() {
            items.push(make_output_item(id, output.as_str()));
        }
        assert(items_view(items@) =~= kept_items(message@));
    } else {
        assert(items_view(items@) =~= Seq::empty());
    }
    items
}

/// The items of a conversation that is kept in the Chat Completions form.
/// Reasoning is left out: it cannot be sent again.
pub fn chat_messages_to_responses_input(messages: &[Json]) -> (r: Vec<Json>)
    ensures
        items_view(r@) == all_kept_items(items_view(messages@)),
{
    let ghost views = items_view(messages@);
    let mut input: Vec<Json> = Vec::new();
    let mut i: usize = 0;
    assert(items_view(input@) =~= Seq::empty());
    while i < messages.len()
        invariant
            views == items_view(messages@),
            i <= messages@.len(),
            items_view(input@) == all_kept_items(views.take(i as int)),
        decreases messages@.len() - i,
    {
        let ghost before = items_view(input@);
        proof {
            assert(views.take(i + 1).drop_last() =~= views.take(i as int));
            assert(views.take(i + 1).last() == messages@[i as int]@);
        }
        let mut items = convert_message(&messages[i]);
        let ghost added = items_view(items@);
        input.append(&mut items);
        assert(items_view(input@) =~= before + added);
        i += 1;
    }
    assert(views.take(messages@.len() as int) =~= views);
    input
}

/// What is kept between the events of one answer.
#[derive(Debug, Default)]
pub struct ResponsesStreamState {
    /// The events that are ready to be handed out, oldest first.
    pub pending_events: VecDeque<StreamEvent>,
    /// How many function calls have begun and not ended.
    pub open_function_calls: usize,
    /// Whether the end of the answer has been reported.
    pub done_emitted: bool,
}

/// What a [`ResponsesStreamState`] holds.
#[verifier::ext_equal]
pub struct ResponsesView {
    /// The events that are ready to be handed out, oldest first.
    pub pending_events: Seq<EventView>,
    /// How many function calls have begun and not ended.
    pub open_function_calls: usize,
    /// Whether the end of the answer has been reported.
    pub done_emitted: bool,
}

impl View for ResponsesStreamState {
    type V = ResponsesView;

    open spec fn view(&self) -> ResponsesView {
        ResponsesView {
            pending_events: events_view(self.pending_events@),
            open_function_calls: self.open_function_calls,
            done_emitted: self.done_emitted,
        }
    }
}

/// The delta of an event, where it has one that is not empty.
pub open spec fn delta_of(value: JsonView) -> Option<Seq<char>> {
    match value.text_field("delta"@) {
        Some(delta) => if delta.len() > 0 {
            Some(delta)
        } else {
            None
        },
        None => None,
    }
}

/// The function call that an event begins: one with an id and a name.
pub open spec fn begun_call(value: JsonView) -> Option<(Seq<char>, Seq<char>)> {
    match value.field("item"@) {
        Some(item) => {
            let id = text_or(item, "call_id"@, ""@);
            let name = text_or(item, "name"@, ""@);
            if says(item, "type"@, "function_call"@) && id.len() > 0 && name.len() > 0 {
                Some((id, name))
            } else {
                None
            }
        },
        None => None,
    }
}

/// Whether an event ends a function call.
pub open spec fn ends_call(value: JsonView, state: ResponsesView) -> bool {
    match value.field("item"@) {
        Some(item) => says(item, "type"@, "function_call"@) && state.open_function_calls > 0,
        None => false,
    }
}

/// The count in the field `name` of the object in the field `outer`.
pub open spec fn inner_count(usage: JsonView, outer: Seq<char>, name: Seq<char>) -> u64 {
    match usage.field(outer) {
        Some(inner) => count(inner, name),
        None => 0,
    }
}

/// What the end of an answer says of the tokens.
pub open spec fn completed_usage(value: JsonView) -> Seq<EventView> {
    match value.field("response"@) {
        Some(response) => match response.field("usage"@) {
            Some(usage) => {
                let input = count(usage, "input_tokens"@);
                let output = count(usage, "output_tokens"@);
                if input > 0 || output > 0 {
                    seq![
                        EventView::Usage {
                            input_tokens: input,
                            output_tokens: output,
                            cache_hit_tokens: inner_count(
                                usage,
                                "input_tokens_details"@,
                                "cached_tokens"@,
                            ),
                            cache_creation_tokens: 0,
                            reasoning_tokens: inner_count(
                                usage,
                                "output_tokens_details"@,
                                "reasoning_tokens"@,
                            ),
                        },
                    ]
                } else {
                    Seq::empty()
                }
            },
            None => Seq::empty(),
        },
        None => Seq::empty(),
    }
}

/// The end of the answer, where it has not been reported.
pub open spec fn done_once(state: ResponsesView) -> Seq<EventView> {
    if state.done_emitted {
        Seq::empty()
    } else {
        seq![EventView::Done]
    }
}

/// The text of the error of a failed answer.
pub open spec fn failure_text(value: JsonView, kind: Seq<char>) -> Seq<char> {
    match value.field("response"@) {
        Some(response) => inner_text_or(response, "error"@, "message"@, kind),
        None => kind,
    }
}

/// The events that an event of the stream comes to.
pub open spec fn responses_events(value: JsonView, state: ResponsesView) -> Seq<EventView> {
    match value.text_field("type"@) {
        Some(kind) => if kind == "response.output_text.delta"@ {
            match delta_of(value) {
                Some(delta) => seq![EventView::TextDelta(delta)],
                None => Seq::empty(),
            }
        } else if kind == "response.reasoning_summary_text.delta"@ {
            match delta_of(value) {
                Some(delta) => seq![EventView::ReasoningDelta(delta)],
                None => Seq::empty(),
            }
        } else if kind == "response.output_item.added"@ {
            match begun_call(value) {
                Some((id, name)) => seq![EventView::ToolUseStart { id, name }],
                None => Seq::empty(),
            }
        } else if kind == "response.function_call_arguments.delta"@ {
            match delta_of(value) {
                Some(delta) => seq![EventView::ToolInputDelta(delta)],
                None => Seq::empty(),
            }
        } else if kind == "response.output_item.done"@ {
            if ends_call(value, state) {
                seq![EventView::ToolUseEnd]
            } else {
                Seq::empty()
            }
        } else if kind == "response.completed"@ {
            completed_usage(value) + done_once(state)
        } else if kind == "response.failed"@ || kind == "response.incomplete"@ {
            seq![EventView::Error(failure_text(value, kind))]
        } else if kind == "error"@ {
            seq![EventView::Error(text_or(value, "message"@, "unknown Responses API error"@))]
        } else {
            Seq::empty()
        },
        None => Seq::empty(),
    }
}

/// The state after an event of the stream: function calls are counted, and the
/// end of the answer is remembered.
pub open spec fn responses_state(value: JsonView, state: ResponsesView) -> ResponsesView {
    match value.text_field("type"@) {
        Some(kind) => if kind == "response.output_text.delta"@ || kind
            == "response.reasoning_summary_text.delta"@ {
            state
        } else if kind == "response.output_item.added"@ {
            if begun_call(value) is Some {
                ResponsesView {
                    open_function_calls: (state.open_function_calls + 1) as usize,
                    ..state
                }
            } else {
                state
            }
        } else if kind == "response.function_call_arguments.delta"@ {
            state
        } else if kind == "response.output_item.done"@ {
            if ends_call(value, state) {
                ResponsesView {
                    open_function_calls: (state.open_function_calls - 1) as usize,
                    ..state
                }
            } else {
                state
            }
        } else if kind == "response.completed"@ {
            ResponsesView { done_emitted: true, ..state }
        } else {
            state
        },
        None => state,
    }
}

/// The events, or nothing where there are none.
pub open spec fn some_events(events: Seq<EventView>) -> Option<Seq<EventView>> {
    if events.len() > 0 {
        Some(events)
    } else {
        None
    }
}

impl ResponsesStreamState {
    /// The state before the first event.
    pub fn new() -> (r: Self)
        ensures
            r@ == (ResponsesView {
                pending_events: Seq::empty(),
                open_function_calls: 0,
                done_emitted: false,
            }),
    {
        let r = ResponsesStreamState {
            pending_events: VecDeque::new(),
            open_function_calls: 0,
            done_emitted: false,
        };
        assert(r@.pending_events =~= Seq::empty());
        r
    }
}

/// The delta of an event, where it has one that is not empty.
fn read_delta(value: &Json) -> (r: Option<String>)
    ensures
        option_text(r) == delta_of(value@),
{
    match value.get_str("delta") {
        Some(delta) => if delta.is_empty() {
            None
        } else {
            Some(delta.to_owned())
        },
        None => None,
    }
}

/// The count in the field `name` of the object in the field `outer`.
fn inner_count_in(usage: &Json, outer: &str, name: &str) -> (r: u64)
    ensures
        r == inner_count(usage@, outer@, name@),
{
    match usage.get(outer) {
        Some(inner) => count_in(inner, name),
        None => 0,
    }
}

/// What the end of an answer says of the tokens.
fn read_usage(value: &Json) -> (r: Option<StreamEvent>)
    ensures
        match r {
            Some(event) => completed_usage(value@) == seq![event@],
            None => completed_usage(value@) == Seq::<EventView>::empty(),
        },
{
    let usage = match value.get("response") {
        Some(response) => match response.get("usage") {
            Some(usage) => usage,
            None => {
                return None;
            },
        },
        None => {
            return None;
        },
    };
    let input: u64 = count_in(usage, "input_tokens");
    let output: u64 = count_in(usage, "output_tokens");
    if input > 0 || output > 0 {
        Some(
            StreamEvent::Usage {
                input_tokens: input,
                output_tokens: output,
                cache_hit_tokens: inner_count_in(usage, "input_tokens_details", "cached_tokens"),
                cache_creation_tokens: 0,
                reasoning_tokens: inner_count_in(
                    usage,
                    "output_tokens_details",
                    "reasoning_tokens",
                ),
            },
        )
    } else {
        None
    }
}

/// The function call that an event begins.
fn read_begun_call(value: &Json) -> (r: Option<StreamEvent>)
    ensures
        match r {
            Some(event) => begun_call(value@) matches Some((id, name)) && event@
                == (EventView::ToolUseStart { id, name }),
            None => begun_call(value@) is None,
        },
{
    proof {
        reveal_strlit("");
    }
    match value.get("item") {
        Some(item) => {
            let id = str_or(item, "call_id", "");
            let name = str_or(item, "name", "");
            if field_is(item, "type", "function_call") && !id.is_empty() && !name.is_empty() {
                Some(StreamEvent::ToolUseStart { id: id.to_owned(), name: name.to_owned() })
            } else {
                None
            }
        },
        None => None,
    }
}

/// Takes up an event of the stream that has been read as JSON.
pub fn read_responses_event(value: &Json, state: &mut ResponsesStreamState) -> (r: Vec<StreamEvent>)
    requires
        old(state).open_function_calls < usize::MAX,
    ensures
        events_view(r@) == responses_events(value@, old(state)@),
        final(state)@ == responses_state(value@, old(state)@),
{
    let mut events: Vec<StreamEvent> = Vec::new();
    assert(events_view(events@) =~= Seq::<EventView>::empty());
    let kind = match value.get_str("type") {
        Some(kind) => kind,
        None => {
            return events;
        },
    };
    if same(kind, "response.output_text.delta") {
        if let Some(delta) = read_delta(value) {
            events.push(StreamEvent::TextDelta(delta));
        }
    } else if same(kind, "response.reasoning_summary_text.delta") {
        if let Some(delta) = read_delta(value) {
            events.push(StreamEvent::ReasoningDelta(delta));
        }
    } else if same(kind, "response.output_item.added") {
        if let Some(event) = read_begun_call(value) {
            state.open_function_calls = state.open_function_calls + 1;
            events.push(event);
        }
    } else if same(kind, "response.function_call_arguments.delta") {
        if let Some(delta) = read_delta(value) {
            events.push(StreamEvent::ToolInputDelta(delta));
        }
    } else if same(kind, "response.output_item.done") {
        if let Some(item) = value.get("item") {
            if field_is(item, "type", "function_call") && state.open_function_calls > 0 {
                state.open_function_calls = state.open_function_calls - 1;
                events.push(StreamEvent::ToolUseEnd);
            }
        }
    } else if same(kind, "response.completed") {
        if let Some(event) = read_usage(value) {
            events.push(event);
        }
        if !state.done_emitted {
            state.done_emitted = true;
            events.push(StreamEvent::Done);
        }
    } else if same(kind, "response.failed") || same(kind, "response.incomplete") {
        let text: &str = match value.get("response") {
            Some(response) => inner_str_or(response, "error", "message", kind),
            None => kind,
        };
        events.push(StreamEvent::Error(text.to_owned()));
    } else if same(kind, "error") {
        let text = str_or(value, "message", "unknown Responses API error");
        events.push(StreamEvent::Error(text.to_owned()));
    }
    assert(events_view(events@) =~= responses_events(value@, old(state)@));
    events
}

/// The events that the text of an event of the stream comes to; nothing where
/// there are none.
pub open spec fn parsed_events(data: Seq<char>, state: ResponsesView) -> Option<Seq<EventView>> {
    match text_as_json(data) {
        Some(value) => some_events(responses_events(value, state)),
        None => None,
    }
}

/// The state after the text of an event of the stream.
pub open spec fn parsed_state(data: Seq<char>, state: ResponsesView) -> ResponsesView {
    match text_as_json(data) {
        Some(value) => responses_state(value, state),
        None => state,
    }
}

/// Takes up an event of the stream. One that is not JSON changes nothing.
pub fn parse_responses_event(data: &str, state: &mut ResponsesStreamState) -> (r: Option<
    Vec<StreamEvent>,
>)
    requires
        old(state).open_function_calls < usize::MAX,
    ensures
        option_events(r) == parsed_events(data@, old(state)@),
        final(state)@ == parsed_state(data@, old(state)@),
{
    match parse_json(data) {
        Some(value) => {
            let events = read_responses_event(&value, state);
            if events.is_empty() {
                None
            } else {
                Some(events)
            }
        },
        None => None,
    }
}

/// The events that wait to be handed out after what the stream yields.
pub open spec fn responses_queue(item: SseItem, state: ResponsesView) -> Seq<EventView> {
    match item {
        SseItem::Message(data) => if trim(data@) == "[DONE]"@ {
            state.pending_events + done_once(state)
        } else {
            match text_as_json(data@) {
                Some(value) => state.pending_events + responses_events(value, state),
                None => state.pending_events,
            }
        },
        _ => state.pending_events,
    }
}

/// The step that follows what the stream yields: an error is reported, else
/// the oldest event that waits is handed out, else the answer goes on or ends.
pub open spec fn responses_step(item: SseItem, state: ResponsesView) -> StepView {
    let queue = responses_queue(item, state);
    match item {
        SseItem::Open => StepView::Wait,
        SseItem::Failed(text) => if !mentions(text@, "Stream ended"@) {
            StepView::Fail("SSE stream error: "@ + text@)
        } else if queue.len() > 0 {
            StepView::Yield(queue[0])
        } else {
            StepView::Finish
        },
        SseItem::Message(data) => if queue.len() > 0 {
            StepView::Yield(queue[0])
        } else if trim(data@) == "[DONE]"@ {
            StepView::Finish
        } else {
            StepView::Wait
        },
        SseItem::Ended => if queue.len() > 0 {
            StepView::Yield(queue[0])
        } else {
            StepView::Finish
        },
    }
}

/// The state after what the stream yields.
pub open spec fn responses_step_state(item: SseItem, state: ResponsesView) -> ResponsesView {
    let queue = responses_queue(item, state);
    let rest = if queue.len() > 0 {
        queue.drop_first()
    } else {
        queue
    };
    match item {
        SseItem::Open => state,
        SseItem::Message(data) => if trim(data@) == "[DONE]"@ {
            ResponsesView { pending_events: rest, done_emitted: true, ..state }
        } else {
            match text_as_json(data@) {
                Some(value) => ResponsesView {
                    pending_events: rest,
                    ..responses_state(value, state)
                },
                None => ResponsesView { pending_events: rest, ..state },
            }
        },
        SseItem::Failed(text) => if mentions(text@, "Stream ended"@) {
            ResponsesView { pending_events: rest, ..state }
        } else {
            state
        },
        SseItem::Ended => ResponsesView { pending_events: rest, ..state },
    }
}

/// Takes the oldest event that waits to be handed out.
pub fn take_pending_response(state: &mut ResponsesStreamState) -> (r: Option<StreamEvent>)
    ensures
        match r {
            Some(event) => old(state)@.pending_events.len() > 0 && event@
                == old(state)@.pending_events[0] && final(state)@ == (ResponsesView {
                pending_events: old(state)@.pending_events.drop_first(),
                ..old(state)@
            }),
            None => old(state)@.pending_events.len() == 0 && final(state)@ == old(state)@,
        },
{
    let ghost start = state@;
    match state.pending_events.pop_front() {
        Some(event) => {
            assert(state@.pending_events =~= start.pending_events.drop_first());
            Some(event)
        },
        None => {
            assert(state@.pending_events =~= start.pending_events);
            None
        },
    }
}

/// Lets the events wait to be handed out.
fn queue_events(state: &mut ResponsesStreamState, events: Vec<StreamEvent>)
    ensures
        final(state)@ == (ResponsesView {
            pending_events: old(state)@.pending_events + events_view(events@),
            ..old(state)@
        }),
{
    let ghost start = state@;
    let ghost all = events@;
    assert(start.pending_events + events_view(all).take(0) =~= start.pending_events);
    for event in it: events
        invariant
            it.seq() == all,
            state@ == (ResponsesView {
                pending_events: start.pending_events + events_view(all).take(it.index() as int),
                ..start
            }),
    {
        let ghost before = state@.pending_events;
        state.pending_events.push_back(event);
        assert(state@.pending_events =~= before.push(event@));
        assert(events_view(all).take(it.index() + 1) =~= events_view(all).take(
            it.index() as int,
        ).push(event@));
        assert(state@.pending_events =~= start.pending_events + events_view(all).take(
            it.index() + 1,
        ));
    }
    assert(events_view(all).take(all.len() as int) =~= events_view(all));
}

/// Takes up what the stream yields.
pub fn next_responses_step(item: SseItem, state: &mut ResponsesStreamState) -> (r: StreamStep)
    requires
        old(state).open_function_calls < usize::MAX,
    ensures
        r@ == responses_step(item, old(state)@),
        final(state)@ == responses_step_state(item, old(state)@),
{
    let ghost start = state@;
    match item {
        SseItem::Open => StreamStep::Wait,
        SseItem::Message(data) => {
            if same(trimmed(data.as_str()).as_str(), "[DONE]") {
                if !state.done_emitted {
                    state.done_emitted = true;
                    state.pending_events.push_back(StreamEvent::Done);
                }
                assert(state@.pending_events =~= responses_queue(item, start));
                match take_pending_response(state) {
                    Some(event) => StreamStep::Yield(event),
                    None => StreamStep::Finish,
                }
            } else {
                if let Some(events) = parse_responses_event(data.as_str(), state) {
                    queue_events(state, events);
                }
                assert(state@.pending_events =~= responses_queue(item, start));
                match take_pending_response(state) {
                    Some(event) => StreamStep::Yield(event),
                    None => StreamStep::Wait,
                }
            }
        },
        SseItem::Failed(text) => if contains(text.as_str(), "Stream ended") {
            match take_pending_response(state) {
                Some(event) => StreamStep::Yield(event),
                None => StreamStep::Finish,
            }
        } else {
            StreamStep::Fail(join2("SSE stream error: ", text.as_str()))
        },
        SseItem::Ended => match take_pending_response(state) {
            Some(event) => StreamStep::Yield(event),
            None => StreamStep::Finish,
        },
    }
}

/// The Responses API, as it is to be called.
#[derive(Debug)]
pub struct OpenAiResponsesProvider {
    /// The address of the API, without a slash at its end.
    pub base_url: String,
    /// The model's id.
    pub model: String,
    /// The key.
    pub api_key: Option<String>,
    /// Extra parameters for the request.
    pub params: Option<Json>,
    /// Whether the model takes images.
    pub supports_images: bool,
    /// The name under which the client presents itself.
    pub user_agent: Option<String>,
}

/// A tool, as it is sent.
pub open spec fn flat_function_json(tool: ToolView) -> JsonView {
    with_field(
        with_field(
            object2("type"@, JsonView::Text("function"@), "name"@, JsonView::Text(tool.name)),
            "description"@,
            JsonView::Text(tool.description),
        ),
        "parameters"@,
        tool.input_schema,
    )
}

/// The request.
pub open spec fn responses_body(
    model: Seq<char>,
    params: Option<JsonView>,
    input: Seq<JsonView>,
    tools: Seq<ToolView>,
    system: Seq<char>,
) -> JsonView {
    let base = with_field(
        with_field(
            object2("model"@, JsonView::Text(model), "stream"@, JsonView::Bool(true)),
            "store"@,
            JsonView::Bool(false),
        ),
        "input"@,
        JsonView::Array(input),
    );
    let instructed = if system.len() > 0 {
        with_field(base, "instructions"@, JsonView::Text(system))
    } else {
        base
    };
    with_params(
        if tools.len() > 0 {
            with_field(
                instructed,
                "tools"@,
                JsonView::Array(tools.map_values(|tool: ToolView| flat_function_json(tool))),
            )
        } else {
            instructed
        },
        params,
    )
}

impl OpenAiResponsesProvider {
    /// The API at `base_url`, for the model `model`.
    pub fn new(
        base_url: &str,
        model: &str,
        api_key: Option<&str>,
        params: Option<Json>,
        supports_images: bool,
        user_agent: Option<&str>,
    ) -> (r: Self)
        ensures
            r.base_url@ == without_trailing(base_url@, '/'),
            r.model@ == model@,
            option_text(r.api_key) == option_str(api_key),
            params_view(r.params) == params_view(params),
            r.supports_images == supports_images,
            option_text(r.user_agent) == option_str(user_agent),
    {
        OpenAiResponsesProvider {
            base_url: strip_trailing(base_url, '/'),
            model: model.to_owned(),
            api_key: owned(api_key),
            params,
            supports_images,
            user_agent: owned(user_agent),
        }
    }

    /// The address that requests are sent to.
    pub fn url(&self) -> (r: String)
        ensures
            r@ == self.base_url@ + "/responses"@,
    {
        join2(self.base_url.as_str(), "/responses")
    }

    /// The request of the items `input`.
    pub fn send_body(&self, input: Vec<Json>, tools: &[ToolDefinition], system: &str) -> (r: Json)
        ensures
            r@ == responses_body(
                self.model@,
                params_view(self.params),
                items_view(input@),
                tools_view(tools@),
                system@,
            ),
    {
        broadcast use lemma_array_view;
        let mut body = Json::object().with("model", Json::text(self.model.as_str())).with(
            "stream",
            Json::Bool(true),
        ).with("store", Json::Bool(false)).with("input", Json::Array(input));
        if !system.is_empty() {
            body = body.with("instructions", Json::text(system));
        }
        if tools.len() > 0 {
            let ghost views = tools_view(tools@);
            let mut functions: Vec<Json> = Vec::new();
            let mut i: usize = 0;
            while i < tools.len()
                invariant
                    views == tools_view(tools@),
                    i <= tools@.len(),
                    functions@.len() == i,
                    forall|k: int|
                        0 <= k < functions@.len() ==> #[trigger] functions@[k]@ == flat_function_json(
                            views[k],
                        ),
                decreases tools@.len() - i,
            {
                let tool = &tools[i];
                functions.push(
                    Json::object().with("type", Json::text("function")).with(
                        "name",
                        Json::text(tool.name.as_str()),
                    ).with("description", Json::text(tool.description.as_str())).with(
                        "parameters",
                        tool.input_schema.clone(),
                    ),
                );
                i += 1;
            }
            assert(items_view(functions@) =~= views.map_values(
                |tool: ToolView| flat_function_json(tool),
            ));
            body = body.with("tools", Json::Array(functions));
        }
        merge_params(&mut body, &self.params);
        body
    }

    /// The request that sends `messages`.
    pub fn complete_body(
        &self,
        messages: &[Message],
        tools: &[ToolDefinition],
        system: &str,
    ) -> (r: Json)
        ensures
            r@ == responses_body(
                self.model@,
                params_view(self.params),
                all_message_items(messages@.map_values(|message: Message| message@)),
                tools_view(tools@),
                system@,
            ),
    {
        let ghost views = messages@.map_values(|message: Message| message@);
        let mut input: Vec<Json> = Vec::new();
        let mut i: usize = 0;
        assert(items_view(input@) =~= Seq::empty());
        while i < messages.len()
            invariant
                views == messages@.map_values(|message: Message| message@),
                i <= messages@.len(),
                items_view(input@) == all_message_items(views.take(i as int)),
            decreases messages@.len() - i,
        {
            let ghost before = items_view(input@);
            proof {
                assert(views.take(i + 1).drop_last() =~= views.take(i as int));
                assert(views.take(i + 1).last() == messages@[i as int]@);
            }
            let mut items = message_to_responses_input(&messages[i]);
            let ghost added = items_view(items@);
            input.append(&mut items);
            assert(items_view(input@) =~= before + added);
            i += 1;
        }
        assert(views.take(messages@.len() as int) =~= views);
        self.send_body(input, tools, system)
    }

    /// The request that sends a conversation again, which is kept in the Chat
    /// Completions form, or in that of the Messages API from before.
    pub fn complete_raw_body(
        &self,
        raw_messages: &[Json],
        tools: &[ToolDefinition],
        system: &str,
    ) -> (r: Json)
        ensures
            r@ == responses_body(
                self.model@,
                params_view(self.params),
                all_kept_items(repaired(sendable(chat_forms(items_view(raw_messages@))))),
                tools_view(tools@),
                system@,
            ),
    {
        let converted = anthropic_to_chat_messages(raw_messages);
        let kept = filter_valid_messages(converted.as_slice());
        self.send_body(chat_messages_to_responses_input(kept.as_slice()), tools, system)
    }

    /// A message of the user, as it is kept in a conversation.
    pub fn format_user_message(&self, blocks: &[ContentBlock]) -> (r: Json)
        ensures
            r@ == user_json(blocks_view(blocks@)),
    {
        build_openai_user_content(blocks)
    }

    /// A tool's answer, as it is kept in a conversation.
    pub fn format_tool_result(&self, tool_call_id: &str, content: &str, is_error: bool) -> (r: Json)
        ensures
            r@ == tool_json(tool_call_id@, labeled(content@, is_error)),
    {
        build_openai_tool_result(tool_call_id, content, is_error)
    }

    /// An answer of the model, as it is kept in a conversation.
    pub fn build_raw_assistant_message(
        &self,
        text: &str,
        reasoning: &str,
        tool_calls: &[(String, String, String)],
    ) -> (r: Json)
        ensures
            r@ == answer_json(text@, reasoning@, call_views(tool_calls@)),
    {
        build_openai_raw_assistant(text, reasoning, tool_calls)
    }
}

/// How often the end of the answer is among the events.
pub open spec fn done_count(events: Seq<EventView>) -> nat
    decreases events.len(),
{
    if events.len() == 0 {
        0
    } else {
        done_count(events.drop_last()) + if events.last() is Done {
            1nat
        } else {
            0
        }
    }
}

/// The events and the state after several events of the stream.
pub open spec fn responses_run(values: Seq<JsonView>, state: ResponsesView) -> (
    Seq<EventView>,
    ResponsesView,
)
    decreases values.len(),
{
    if values.len() == 0 {
        (Seq::empty(), state)
    } else {
        let before = responses_run(values.drop_last(), state);
        (
            before.0 + responses_events(values.last(), before.1),
            responses_state(values.last(), before.1),
        )
    }
}

proof fn lemma_done_concat(a: Seq<EventView>, b: Seq<EventView>)
    ensures
        done_count(a + b) == done_count(a) + done_count(b),
    decreases b.len(),
{
    if b.len() == 0 {
        assert(a + b =~= a);
    } else {
        lemma_done_concat(a, b.drop_last());
        assert((a + b).drop_last() =~= a + b.drop_last());
    }
}

proof fn lemma_single_done(event: EventView)
    ensures
        done_count(seq![event]) == if event is Done {
            1nat
        } else {
            0
        },
{
    reveal_with_fuel(done_count, 2);
}

/// The end of an answer is reported at most once, however often the stream
/// says that it is complete; once it has been, never again.
pub proof fn law_done_at_most_once(values: Seq<JsonView>, state: ResponsesView)
    ensures
        done_count(responses_run(values, state).0) <= 1,
        state.done_emitted ==> done_count(responses_run(values, state).0) == 0,
        responses_run(values, state).1.done_emitted <==> state.done_emitted || done_count(
            responses_run(values, state).0,
        ) == 1,
    decreases values.len(),
{
    if values.len() > 0 {
        law_done_at_most_once(values.drop_last(), state);
        let before = responses_run(values.drop_last(), state);
        let value = values.last();
        let events = responses_events(value, before.1);
        lemma_done_concat(before.0, events);
        if let Some(kind) = value.text_field("type"@) {
            if kind == "response.completed"@ {
                reveal_strlit("response.completed");
                reveal_strlit("response.output_text.delta");
                reveal_strlit("response.reasoning_summary_text.delta");
                reveal_strlit("response.output_item.added");
                reveal_strlit("response.function_call_arguments.delta");
                reveal_strlit("response.output_item.done");
                assert(kind.len() == 18);
                lemma_done_concat(completed_usage(value), done_once(before.1));
                if completed_usage(value).len() > 0 {
                    lemma_single_done(completed_usage(value)[0]);
                    assert(completed_usage(value) =~= seq![completed_usage(value)[0]]);
                }
                lemma_single_done(EventView::Done);
            } else if events.len() > 0 {
                assert(events.len() == 1);
                lemma_single_done(events[0]);
                assert(events =~= seq![events[0]]);
            }
        }
    }
}

/// Kept reasoning is not sent again: items of reasoning could not be.
pub proof fn law_reasoning_is_not_sent(message: JsonView, reasoning: JsonView)
    ensures
        kept_items(with_field(message, "reasoning_content"@, reasoning)) == kept_items(message),
{
    reveal_strlit("reasoning_content");
    reveal_strlit("role");
    reveal_strlit("content");
    reveal_strlit("tool_calls");
    reveal_strlit("tool_call_id");
    assert("reasoning_content"@.len() == 17 && "role"@.len() == 4 && "content"@.len() == 7);
    assert("tool_calls"@.len() == 10 && "tool_call_id"@.len() == 12);
    let with = with_field(message, "reasoning_content"@, reasoning);
    assert(with.field("role"@) == message.field("role"@));
    assert(with.field("content"@) == message.field("content"@));
    assert(with.field("tool_calls"@) == message.field("tool_calls"@));
    assert(with.field("tool_call_id"@) == message.field("tool_call_id"@));
}

/// The item of a kept tool call.
pub open spec fn item_of_call(call: (Seq<char>, Seq<char>, Seq<char>)) -> JsonView {
    call_item(call.0, call.1, safe_arguments(call.2))
}

proof fn lemma_kept_call_items(calls: Seq<(Seq<char>, Seq<char>, Seq<char>)>)
    requires
        forall|i: int|
            0 <= i < calls.len() ==> (#[trigger] calls[i]).0.len() > 0 && calls[i].1.len() > 0,
    ensures
        kept_call_items(kept_calls(calls)) == calls.map_values(
            |call: (Seq<char>, Seq<char>, Seq<char>)| item_of_call(call),
        ),
    decreases calls.len(),
{
    let items = calls.map_values(|call: (Seq<char>, Seq<char>, Seq<char>)| item_of_call(call));
    if calls.len() == 0 {
        assert(items =~= Seq::empty());
    } else {
        reveal_strlit("id");
        reveal_strlit("type");
        reveal_strlit("function");
        reveal_strlit("name");
        reveal_strlit("arguments");
        assert("id"@.len() == 2 && "type"@.len() == 4 && "function"@.len() == 8);
        assert("name"@.len() == 4 && "arguments"@.len() == 9);
        let last = calls.last();
        assert(calls[calls.len() - 1].0.len() > 0);
        lemma_kept_call_items(calls.drop_last());
        assert(kept_calls(calls).drop_last() =~= kept_calls(calls.drop_last()));
        let json = kept_calls(calls).last();
        assert(json == call_json(last.0, last.1, safe_arguments(last.2)));
        assert(json.text_field("id"@) == Some(last.0));
        let inner = json.field("function"@)->0;
        assert(inner.text_field("name"@) == Some(last.1));
        assert(inner.text_field("arguments"@) == Some(safe_arguments(last.2)));
        assert(kept_call_items(kept_calls(calls)) =~= items);
    }
}

/// A kept answer is sent again as its text and one item for each tool call, and
/// a tool's kept answer as the output of the call of the same id.
pub proof fn law_kept_rounds_are_sent(
    text: Seq<char>,
    calls: Seq<(Seq<char>, Seq<char>, Seq<char>)>,
    id: Seq<char>,
    content: Seq<char>,
)
    requires
        forall|i: int|
            0 <= i < calls.len() ==> (#[trigger] calls[i]).0.len() > 0 && calls[i].1.len() > 0,
        id.len() > 0,
    ensures
        kept_items(answer_json(text, Seq::empty(), calls)) == said_items(text) + calls.map_values(
            |call: (Seq<char>, Seq<char>, Seq<char>)| item_of_call(call),
        ),
        kept_items(tool_json(id, content)) == seq![output_item(id, content)],
{
    reveal_strlit("role");
    reveal_strlit("content");
    reveal_strlit("tool_calls");
    reveal_strlit("tool_call_id");
    reveal_strlit("user");
    reveal_strlit("system");
    reveal_strlit("assistant");
    reveal_strlit("tool");
    reveal_strlit("");
    assert("role"@.len() == 4 && "content"@.len() == 7 && "tool_calls"@.len() == 10);
    assert("tool_call_id"@.len() == 12 && ""@.len() == 0);
    assert("user"@.len() == 4 && "system"@.len() == 6 && "assistant"@.len() == 9);
    assert("tool"@[0] == 't' && "user"@[0] == 'u' && "tool"@.len() == 4);
    let answer = answer_json(text, Seq::empty(), calls);
    assert(answer.text_field("role"@) == Some("assistant"@));
    assert(""@ =~= Seq::<char>::empty());
    assert(text.len() == 0 ==> text =~= ""@);
    assert(text_or(answer, "content"@, ""@) == text);
    lemma_kept_call_items(calls);
    let items = calls.map_values(|call: (Seq<char>, Seq<char>, Seq<char>)| item_of_call(call));
    if calls.len() > 0 {
        assert(answer.array_field("tool_calls"@) == Some(kept_calls(calls)));
    } else {
        assert(answer.array_field("tool_calls"@) is None);
        assert(items =~= Seq::empty());
    }
    let output = tool_json(id, content);
    assert(output.text_field("role"@) == Some("tool"@));
    assert(output.text_field("tool_call_id"@) == Some(id));
    assert(output.field("content"@) == Some(JsonView::Text(content)));
}

/// How many of the events are of the kind that `which` tells.
pub open spec fn how_many(events: Seq<EventView>, which: spec_fn(EventView) -> bool) -> nat
    decreases events.len(),
{
    if events.len() == 0 {
        0
    } else {
        how_many(events.drop_last(), which) + if which(events.last()) {
            1nat
        } else {
            0
        }
    }
}

/// How many function calls begin among the events.
pub open spec fn starts_in(events: Seq<EventView>) -> nat {
    how_many(events, |event: EventView| event is ToolUseStart)
}

/// How many function calls end among the events.
pub open spec fn ends_in(events: Seq<EventView>) -> nat {
    how_many(events, |event: EventView| event is ToolUseEnd)
}

proof fn lemma_how_many(a: Seq<EventView>, b: Seq<EventView>, which: spec_fn(EventView) -> bool)
    ensures
        how_many(a + b, which) == how_many(a, which) + how_many(b, which),
    decreases b.len(),
{
    if b.len() == 0 {
        assert(a + b =~= a);
    } else {
        lemma_how_many(a, b.drop_last(), which);
        assert((a + b).drop_last() =~= a + b.drop_last());
    }
}

proof fn lemma_how_many_in_one(event: EventView, which: spec_fn(EventView) -> bool)
    ensures
        how_many(seq![event], which) == if which(event) {
            1nat
        } else {
            0
        },
{
    reveal_with_fuel(how_many, 2);
}

/// The events and the state after the texts of several events of the stream.
pub open spec fn parsed_run(data: Seq<Seq<char>>, state: ResponsesView) -> (
    Seq<EventView>,
    ResponsesView,
)
    decreases data.len(),
{
    if data.len() == 0 {
        (Seq::empty(), state)
    } else {
        let before = parsed_run(data.drop_last(), state);
        (
            before.0 + match parsed_events(data.last(), before.1) {
                Some(events) => events,
                None => Seq::empty(),
            },
            parsed_state(data.last(), before.1),
        )
    }
}

proof fn lemma_calls_of_event(value: JsonView, state: ResponsesView)
    requires
        state.open_function_calls < usize::MAX,
    ensures
        ({
            let events = responses_events(value, state);
            let after = responses_state(value, state);
            &&& state.open_function_calls + starts_in(events) == after.open_function_calls
                + ends_in(events)
            &&& after.open_function_calls <= state.open_function_calls + 1
            &&& done_count(events) <= 1
            &&& state.done_emitted ==> done_count(events) == 0 && after.done_emitted
            &&& !state.done_emitted ==> (after.done_emitted <==> done_count(events) == 1)
        }),
{
    let events = responses_events(value, state);
    let is_start = |event: EventView| event is ToolUseStart;
    let is_end = |event: EventView| event is ToolUseEnd;
    let values = seq![value];
    reveal_with_fuel(responses_run, 2);
    assert(values.drop_last() =~= Seq::empty());
    assert(responses_run(values, state).0 =~= events);
    law_done_at_most_once(values, state);
    if let Some(kind) = value.text_field("type"@) {
        reveal_strlit("response.completed");
        reveal_strlit("response.output_text.delta");
        reveal_strlit("response.reasoning_summary_text.delta");
        reveal_strlit("response.output_item.added");
        reveal_strlit("response.function_call_arguments.delta");
        reveal_strlit("response.output_item.done");
        reveal_strlit("response.failed");
        reveal_strlit("response.incomplete");
        reveal_strlit("error");
        assert("response.completed"@.len() == 18);
        assert("response.output_item.added"@.len() == 26);
        assert("response.output_text.delta"@.len() == 26);
        assert("response.output_text.delta"@[16] != "response.output_item.added"@[16]);
        assert("response.output_item.done"@.len() == 25);
        assert("response.reasoning_summary_text.delta"@.len() == 37);
        assert("response.function_call_arguments.delta"@.len() == 38);
        if kind == "response.completed"@ {
            let usage = completed_usage(value);
            let done = done_once(state);
            lemma_how_many(usage, done, is_start);
            lemma_how_many(usage, done, is_end);
            if usage.len() > 0 {
                assert(usage =~= seq![usage[0]]);
                lemma_how_many_in_one(usage[0], is_start);
                lemma_how_many_in_one(usage[0], is_end);
            }
            lemma_how_many_in_one(EventView::Done, is_start);
            lemma_how_many_in_one(EventView::Done, is_end);
        } else if events.len() > 0 {
            assert(events =~= seq![events[0]]);
            lemma_how_many_in_one(events[0], is_start);
            lemma_how_many_in_one(events[0], is_end);
        }
    }
}

/// However the stream goes, the events of a whole answer are in balance: no more
/// function calls end than have begun, those that have not ended are counted,
/// and the end of the answer is reported at most once.
pub proof fn law_calls_are_balanced(data: Seq<Seq<char>>, state: ResponsesView)
    requires
        state.open_function_calls == 0,
        !state.done_emitted,
        data.len() < usize::MAX,
    ensures
        ({
            let (events, after) = parsed_run(data, state);
            &&& ends_in(events) <= starts_in(events)
            &&& starts_in(events) == ends_in(events) + after.open_function_calls
            &&& after.open_function_calls <= data.len()
            &&& done_count(events) <= 1
            &&& after.done_emitted <==> done_count(events) == 1
        }),
    decreases data.len(),
{
    let is_start = |event: EventView| event is ToolUseStart;
    let is_end = |event: EventView| event is ToolUseEnd;
    if data.len() > 0 {
        law_calls_are_balanced(data.drop_last(), state);
        let before = parsed_run(data.drop_last(), state);
        let more = match parsed_events(data.last(), before.1) {
            Some(events) => events,
            None => Seq::empty(),
        };
        lemma_how_many(before.0, more, is_start);
        lemma_how_many(before.0, more, is_end);
        lemma_done_concat(before.0, more);
        if let Some(value) = text_as_json(data.last()) {
            assert(more =~= responses_events(value, before.1));
            lemma_calls_of_event(value, before.1);
        }
    }
}

/// Whether events of the type are read.
pub open spec fn is_known(kind: Seq<char>) -> bool {
    ||| kind == "response.output_text.delta"@
    ||| kind == "response.reasoning_summary_text.delta"@
    ||| kind == "response.output_item.added"@
    ||| kind == "response.function_call_arguments.delta"@
    ||| kind == "response.output_item.done"@
    ||| kind == "response.completed"@
    ||| kind == "response.failed"@
    ||| kind == "response.incomplete"@
    ||| kind == "error"@
}

/// An event that is read never comes to an empty list. One that is not JSON, has
/// no type or is of an unknown type comes to nothing and changes nothing.
pub proof fn law_unknown_events_change_nothing(data: Seq<char>, state: ResponsesView)
    ensures
        parsed_events(data, state) matches Some(events) ==> events.len() > 0,
        (text_as_json(data) matches Some(value) ==> (value.text_field("type"@) matches Some(kind)
            ==> !is_known(kind))) ==> parsed_events(data, state) is None && parsed_state(
            data,
            state,
        ) == state,
{
}

/// Conversations that follow each other are sent one after the other.
pub proof fn law_items_follow_each_other(a: Seq<JsonView>, b: Seq<JsonView>)
    ensures
        all_kept_items(a + b) == all_kept_items(a) + all_kept_items(b),
    decreases b.len(),
{
    if b.len() == 0 {
        assert(a + b =~= a);
        assert(all_kept_items(a) + all_kept_items(b) =~= all_kept_items(a));
    } else {
        law_items_follow_each_other(a, b.drop_last());
        assert((a + b).drop_last() =~= a + b.drop_last());
        assert(all_kept_items(a + b) =~= all_kept_items(a) + all_kept_items(b));
    }
}

/// Whether the kept tool call has an id and a name.
pub open spec fn is_whole_call(call: JsonView) -> bool {
    text_or(call, "id"@, ""@).len() > 0 && inner_text_or(call, "function"@, "name"@, ""@).len() > 0
}

/// The item of a kept tool call.
pub open spec fn item_of_kept_call(call: JsonView) -> JsonView {
    call_item(
        text_or(call, "id"@, ""@),
        inner_text_or(call, "function"@, "name"@, ""@),
        inner_text_or(call, "function"@, "arguments"@, "{}"@),
    )
}

proof fn lemma_whole_calls(calls: Seq<JsonView>)
    ensures
        kept_call_items(calls) == calls.filter(|call: JsonView| is_whole_call(call)).map_values(
            |call: JsonView| item_of_kept_call(call),
        ),
    decreases calls.len(),
{
    let whole = |call: JsonView| is_whole_call(call);
    let to_item = |call: JsonView| item_of_kept_call(call);
    reveal(Seq::filter);
    if calls.len() > 0 {
        lemma_whole_calls(calls.drop_last());
        let before = calls.drop_last().filter(whole);
        if is_whole_call(calls.last()) {
            assert(before.push(calls.last()).map_values(to_item) =~= before.map_values(
                to_item,
            ).push(to_item(calls.last())));
        }
    } else {
        assert(calls.filter(whole).map_values(to_item) =~= Seq::empty());
    }
}

/// A kept answer is sent as its text, where it is one that is not empty, and
/// behind it one item for each tool call that has an id and a name, in order. A
/// tool's answer to a call with an id is sent as one item with that id.
pub proof fn law_items_of_a_message(message: JsonView)
    ensures
        says(message, "role"@, "assistant"@) ==> kept_items(message) == said_items(
            text_or(message, "content"@, ""@),
        ) + calls_of(message).filter(|call: JsonView| is_whole_call(call)).map_values(
            |call: JsonView| item_of_kept_call(call),
        ),
        says(message, "role"@, "tool"@) ==> (message.text_field("tool_call_id"@) matches Some(id)
            ==> (id.len() > 0 ==> kept_items(message) == seq![
            output_item(id, output_text(message)),
        ])),
{
    reveal_strlit("user");
    reveal_strlit("system");
    reveal_strlit("assistant");
    reveal_strlit("tool");
    assert("user"@.len() == 4 && "system"@.len() == 6 && "assistant"@.len() == 9);
    assert("tool"@[0] == 't' && "user"@[0] == 'u' && "tool"@.len() == 4);
    lemma_whole_calls(calls_of(message));
}

/// Whether an item carries no reasoning.
pub open spec fn is_without_reasoning(item: JsonView) -> bool {
    item.field("reasoning_content"@) is None
}

proof fn lemma_items_without_reasoning(message: JsonView, i: int)
    requires
        0 <= i < kept_items(message).len(),
    ensures
        is_without_reasoning(kept_items(message)[i]),
{
    reveal_strlit("reasoning_content");
    reveal_strlit("type");
    reveal_strlit("role");
    reveal_strlit("content");
    reveal_strlit("call_id");
    reveal_strlit("name");
    reveal_strlit("arguments");
    reveal_strlit("output");
    assert("reasoning_content"@.len() == 17 && "type"@.len() == 4 && "role"@.len() == 4);
    assert("content"@.len() == 7 && "call_id"@.len() == 7 && "name"@.len() == 4);
    assert("arguments"@.len() == 9 && "output"@.len() == 6);
    if says(message, "role"@, "assistant"@) && !says(message, "role"@, "user"@) && !says(
        message,
        "role"@,
        "system"@,
    ) {
        let said = said_items(text_or(message, "content"@, ""@));
        if i >= said.len() {
            let calls = calls_of(message);
            lemma_whole_calls(calls);
            let whole = calls.filter(|call: JsonView| is_whole_call(call));
            assert(kept_items(message)[i] == kept_call_items(calls)[i - said.len()]);
            assert(kept_items(message)[i] == item_of_kept_call(whole[i - said.len()]));
        } else {
            assert(kept_items(message)[i] == said[i]);
        }
    }
}

/// No item that is sent carries reasoning.
pub proof fn law_no_item_carries_reasoning(messages: Seq<JsonView>, i: int)
    requires
        0 <= i < all_kept_items(messages).len(),
    ensures
        is_without_reasoning(all_kept_items(messages)[i]),
    decreases messages.len(),
{
    let before = all_kept_items(messages.drop_last());
    if i < before.len() {
        law_no_item_carries_reasoning(messages.drop_last(), i);
    } else {
        lemma_items_without_reasoning(messages.last(), i - before.len());
    }
}

} // verus!
