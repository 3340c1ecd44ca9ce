//! Anthropic's Messages API.
use crate::json::{
    Json, JsonView, empty_object, items_view, lemma_array_view, lemma_object_view,
    lemma_same_field, number_view, object1, object2, parse_json, text_as_json, with_field,
    without_field,
};
use crate::provider::messages::{filter_valid_messages, repaired, sendable};
use crate::provider::openai_compat::headers_view;
use crate::provider::params::{merge_params, overlaid, params_view};
use crate::provider::usage::{
    anthropic_input, anthropic_total_input_tokens, count, count_in, extract_anthropic_cache_split,
};
use crate::provider::stream::{SseItem, StepView, StreamStep};
use crate::text::{
    contains, mentions, join2, option_str, option_text, owned, same, strip_trailing, without_trailing,
};
use crate::types::{
    BlockView, ContentBlock, EventView, ImageSource, ImageView, Message, MessageView, Role,
    StreamEvent, ToolDefinition, ToolView, blocks_view, call_views, events_view, option_events,
    tools_view,
};
use vstd::prelude::*;
use vstd::string::*;

verus! {

/// The mark of a cache breakpoint.
pub open spec fn marker() -> JsonView {
    object1("type"@, JsonView::Text("ephemeral"@))
}

/// An object with the mark; any other document as it is.
pub open spec fn marked(json: JsonView) -> JsonView {
    with_field(json, "cache_control"@, marker())
}

/// The items with the mark on the last one.
pub open spec fn last_marked(items: Seq<JsonView>) -> Seq<JsonView> {
    if items.len() == 0 {
        items
    } else {
        items.update(items.len() - 1, marked(items.last()))
    }
}

/// Whether a mark stands anywhere in the document.
pub open spec fn has_marker(json: JsonView) -> bool
    decreases json,
{
    match json {
        JsonView::Object(fields) => fields.dom().contains("cache_control"@) || exists|name: Seq<char>|
            #[trigger] fields.dom().contains(name) && has_marker(fields[name]),
        JsonView::Array(items) => exists|i: int|
            0 <= i < items.len() && has_marker(#[trigger] items[i]),
        _ => false,
    }
}

/// A block of text.
pub open spec fn text_block(text: Seq<char>) -> JsonView {
    object2("type"@, JsonView::Text("text"@), "text"@, JsonView::Text(text))
}

/// The document with the mark on the last item of the array in its field
/// `name`.
pub open spec fn array_marked(json: JsonView, name: Seq<char>) -> JsonView {
    match json.array_field(name) {
        Some(items) => with_field(json, name, JsonView::Array(last_marked(items))),
        None => json,
    }
}

/// A message with its content as an array of blocks: a string becomes one
/// block of text.
pub open spec fn with_block_content(message: JsonView) -> JsonView {
    match message.text_field("content"@) {
        Some(text) => with_field(message, "content"@, JsonView::Array(seq![text_block(text)])),
        None => message,
    }
}

/// A message with the mark on its last block.
pub open spec fn message_marked(message: JsonView) -> JsonView {
    array_marked(with_block_content(message), "content"@)
}

/// The messages with marks on the two before the newest.
pub open spec fn window_marked(messages: Seq<JsonView>) -> Seq<JsonView> {
    let n = messages.len();
    Seq::new(
        n,
        |i: int|
            if i == n - 3 || i == n - 2 {
                message_marked(messages[i])
            } else {
                messages[i]
            },
    )
}

/// A request with its system prompt as an array of blocks: a string that is
/// not empty becomes one block of text.
pub open spec fn with_block_system(body: JsonView) -> JsonView {
    match body.text_field("system"@) {
        Some(text) => if text.len() > 0 {
            with_field(body, "system"@, JsonView::Array(seq![text_block(text)]))
        } else {
            body
        },
        None => body,
    }
}

/// A request with marks in the messages.
pub open spec fn messages_marked(body: JsonView) -> JsonView {
    match body.array_field("messages"@) {
        Some(messages) => with_field(body, "messages"@, JsonView::Array(window_marked(messages))),
        None => body,
    }
}

/// A request with its cache breakpoints: on the last tool, on the last block
/// of the system prompt, and on the two messages before the newest. A request
/// that has marks of its own stays as it is.
pub open spec fn with_breakpoints(body: JsonView) -> JsonView {
    if has_marker(body) {
        body
    } else {
        messages_marked(
            array_marked(with_block_system(array_marked(body, "tools"@)), "system"@),
        )
    }
}

/// A mark in a field is a mark in the object.
pub proof fn lemma_marker_in_field(fields: Map<Seq<char>, JsonView>, name: Seq<char>)
    requires
        fields.dom().contains(name),
        has_marker(fields[name]),
    ensures
        has_marker(JsonView::Object(fields)),
{
}

/// A mark in an item is a mark in the array.
pub proof fn lemma_marker_in_item(items: Seq<JsonView>, i: int)
    requires
        0 <= i < items.len(),
        has_marker(items[i]),
    ensures
        has_marker(JsonView::Array(items)),
{
    reveal_with_fuel(has_marker, 2);
    let array = JsonView::Array(items);
    assert(array->Array_0[i] == items[i]);
}

/// The mark of a cache breakpoint.
fn make_marker() -> (r: Json)
    ensures
        r@ == marker(),
{
    Json::object().with("type", Json::text("ephemeral"))
}

/// Sets the mark on the last item.
pub fn mark_last(items: &mut Vec<Json>)
    ensures
        items_view(final(items)@) == last_marked(items_view(old(items)@)),
{
    let ghost start = items_view(items@);
    match items.pop() {
        Some(last) => {
            let ghost before = items_view(items@);
            let done = last.with("cache_control", make_marker());
            items.push(done);
            assert(items_view(items@) =~= before.push(done@));
            assert(start =~= before.push(start.last()));
            assert(items_view(items@) =~= last_marked(start));
        },
        None => {
            assert(items_view(items@) =~= start);
        },
    }
}

/// Whether a mark stands anywhere in the document.
pub fn has_cache_control(json: &Json) -> (r: bool)
    ensures
        r == has_marker(json@),
    decreases json@,
{
    broadcast use {lemma_array_view, lemma_object_view};
    match json {
        Json::Object(fields) => {
            let ghost views = crate::json::fields_view(fields@);
            let ghost map = json@->Object_0;
            proof {
                crate::json::lemma_fields_map(views);
            }
            if json.get("cache_control").is_some() {
                return true;
            }
            let mut i: usize = 0;
            while i < fields.len()
                invariant
                    *json == Json::Object(*fields),
                    views == crate::json::fields_view(fields@),
                    json@ == JsonView::Object(map),
                    map == crate::json::fields_map(views),
                    map.dom().finite(),
                    forall|k: Seq<char>|
                        map.dom().contains(k) <==> exists|i: int|
                            0 <= i < views.len() && #[trigger] views[i].0 == k,
                    i <= fields@.len(),
                    !map.dom().contains("cache_control"@),
                    forall|j: int| 0 <= j < i ==> !has_marker(map[#[trigger] views[j].0]),
                decreases fields@.len() - i,
            {
                let ghost name = views[i as int].0;
                assert(name == fields@[i as int].0@);
                assert(map.dom().contains(name));
                if let Some(value) = json.get(fields[i].0.as_str()) {
                    proof {
                        assert(decreases_to!(json@ => json@->Object_0));
                        assert(decreases_to!(map => map[name]));
                    }
                    if has_cache_control(value) {
                        proof {
                            lemma_marker_in_field(map, name);
                        }
                        return true;
                    }
                }
                i += 1;
            }
            false
        },
        Json::Array(items) => {
            let ghost views = items_view(items@);
            let mut i: usize = 0;
            while i < items.len()
                invariant
                    json@ == JsonView::Array(views),
                    views == items_view(items@),
                    i <= items@.len(),
                    forall|j: int| 0 <= j < i ==> !has_marker(#[trigger] views[j]),
                decreases items@.len() - i,
            {
                assert(views[i as int] == items@[i as int]@);
                assert(decreases_to!(json@ => json@->Array_0));
                assert(decreases_to!(views => views[i as int]));
                if has_cache_control(&items[i]) {
                    proof {
                        lemma_marker_in_item(views, i as int);
                    }
                    return true;
                }
                i += 1;
            }
            false
        },
        _ => false,
    }
}

/// The items of an array, copied.
fn copy_items(items: &Vec<Json>) -> (r: Vec<Json>)
    ensures
        items_view(r@) == items_view(items@),
{
    let mut out: Vec<Json> = Vec::new();
    let mut i: usize = 0;
    while i < items.len()
        invariant
            i <= items@.len(),
            out@.len() == i,
            forall|k: int| 0 <= k < out@.len() ==> #[trigger] out@[k]@ == items@[k]@,
        decreases items@.len() - i,
    {
        out.push(items[i].clone());
        i += 1;
    }
    assert(items_view(out@) =~= items_view(items@));
    out
}

/// The document with the mark on the last item of the array in its field
/// `name`.
fn mark_array(json: Json, name: &str) -> (r: Json)
    ensures
        r@ == array_marked(json@, name@),
{
    broadcast use lemma_array_view;
    let items: Vec<Json> = match json.get_array(name) {
        Some(items) => copy_items(items),
        None => {
            return json;
        },
    };
    let mut items = items;
    mark_last(&mut items);
    json.with(name, Json::Array(items))
}

/// An array of one block of text.
fn text_blocks(text: &str) -> (r: Json)
    ensures
        r@ == JsonView::Array(seq![text_block(text@)]),
{
    broadcast use lemma_array_view;
    let mut blocks: Vec<Json> = Vec::new();
    blocks.push(Json::object().with("type", Json::text("text")).with("text", Json::text(text)));
    assert(items_view(blocks@) =~= seq![text_block(text@)]);
    Json::Array(blocks)
}

/// Sets the mark on the last block of a message. The mark stands on a block,
/// never on the message; content that is a string becomes one block first.
pub fn mark_last_block_cached(message: &mut Json)
    ensures
        final(message)@ == message_marked(old(message)@),
{
    let mut taken = Json::Null;
    std::mem::swap(message, &mut taken);
    let blocks: Option<Json> = match taken.get_str("content") {
        Some(text) => Some(text_blocks(text)),
        None => None,
    };
    if let Some(blocks) = blocks {
        taken = taken.with("content", blocks);
    }
    *message = mark_array(taken, "content");
}

/// Sets the cache breakpoints of a request.
pub fn apply_cache_breakpoints(body: &mut Json)
    ensures
        final(body)@ == with_breakpoints(old(body)@),
{
    broadcast use lemma_array_view;
    if has_cache_control(body) {
        return ;
    }
    let mut taken = Json::Null;
    std::mem::swap(body, &mut taken);
    taken = mark_array(taken, "tools");
    let blocks: Option<Json> = match taken.get_str("system") {
        Some(text) => if text.is_empty() {
            None
        } else {
            Some(text_blocks(text))
        },
        None => None,
    };
    if let Some(blocks) = blocks {
        taken = taken.with("system", blocks);
    }
    taken = mark_array(taken, "system");
    let window: Option<Vec<Json>> = match taken.get_array("messages") {
        Some(messages) => {
            let ghost views = items_view(messages@);
            let n: usize = messages.len();
            let mut out: Vec<Json> = Vec::new();
            let mut i: usize = 0;
            while i < n
                invariant
                    n == messages@.len(),
                    views == items_view(messages@),
                    i <= n,
                    out@.len() == i,
                    forall|k: int|
                        0 <= k < out@.len() ==> #[trigger] out@[k]@ == window_marked(views)[k],
                decreases n - i,
            {
                let mut message = messages[i].clone();
                assert(message@ == views[i as int]);
                if n - i == 3 || n - i == 2 {
                    mark_last_block_cached(&mut message);
                }
                out.push(message);
                i += 1;
            }
            assert(items_view(out@) =~= window_marked(views));
            Some(out)
        },
        None => None,
    };
    if let Some(window) = window {
        taken = taken.with("messages", Json::Array(window));
    }
    *body = taken;
}

/// A schema without the keywords `oneOf`, `allOf` and `anyOf` at its top.
pub open spec fn plain_schema(schema: JsonView) -> JsonView {
    without_field(without_field(without_field(schema, "oneOf"@), "allOf"@), "anyOf"@)
}

/// Removes the composition keywords at the top of a tool's schema: not every
/// model takes them, and the tool checks its arguments itself.
pub fn sanitize_input_schema(schema: Json) -> (r: Json)
    ensures
        r@ == plain_schema(schema@),
{
    schema.without("oneOf").without("allOf").without("anyOf")
}

/// An image as a block.
pub open spec fn image_json(source: ImageView) -> JsonView {
    object2(
        "type"@,
        JsonView::Text("image"@),
        "source"@,
        match source {
            ImageView::Base64 { media_type, data } => with_field(
                object2(
                    "type"@,
                    JsonView::Text("base64"@),
                    "media_type"@,
                    JsonView::Text(media_type),
                ),
                "data"@,
                JsonView::Text(data),
            ),
            ImageView::Url { url } => object2(
                "type"@,
                JsonView::Text("url"@),
                "url"@,
                JsonView::Text(url),
            ),
        },
    )
}

/// A tool's answer as a block; that it failed is said only where it did.
pub open spec fn tool_result_json(id: Seq<char>, content: Seq<char>, is_error: bool) -> JsonView {
    let plain = with_field(
        object2("type"@, JsonView::Text("tool_result"@), "tool_use_id"@, JsonView::Text(id)),
        "content"@,
        JsonView::Text(content),
    );
    if is_error {
        with_field(plain, "is_error"@, JsonView::Bool(true))
    } else {
        plain
    }
}

/// A tool call as a block.
pub open spec fn tool_use_json(id: Seq<char>, name: Seq<char>, input: JsonView) -> JsonView {
    with_field(
        with_field(
            object2("type"@, JsonView::Text("tool_use"@), "id"@, JsonView::Text(id)),
            "name"@,
            JsonView::Text(name),
        ),
        "input"@,
        input,
    )
}

/// A block of a message, as it is sent.
pub open spec fn block_json(block: BlockView) -> JsonView {
    match block {
        BlockView::Text { text } => text_block(text),
        BlockView::Image { source } => image_json(source),
        BlockView::ToolUse { id, name, input } => tool_use_json(id, name, input),
        BlockView::ToolResult { tool_use_id, content, is_error } => tool_result_json(
            tool_use_id,
            content,
            is_error,
        ),
    }
}

/// A message of a role and its blocks.
pub open spec fn role_message(role: Seq<char>, blocks: Seq<JsonView>) -> JsonView {
    object2("role"@, JsonView::Text(role), "content"@, JsonView::Array(blocks))
}

/// The name of a role. A tool's answer comes from the user.
pub open spec fn role_name(role: Role) -> Seq<char> {
    match role {
        Role::User => "user"@,
        Role::Assistant => "assistant"@,
        Role::Tool => "user"@,
    }
}

/// A message, as it is sent.
pub open spec fn message_json(message: MessageView) -> JsonView {
    role_message(
        role_name(message.role),
        message.content.map_values(|block: BlockView| block_json(block)),
    )
}

/// The blocks of a message of the user, as they are sent: its text and its
/// images.
pub open spec fn user_blocks_json(blocks: Seq<BlockView>) -> Seq<JsonView>
    decreases blocks.len(),
{
    if blocks.len() == 0 {
        Seq::empty()
    } else {
        let before = user_blocks_json(blocks.drop_last());
        match blocks.last() {
            BlockView::Text { .. } => before.push(block_json(blocks.last())),
            BlockView::Image { .. } => before.push(block_json(blocks.last())),
            _ => before,
        }
    }
}

/// An image as a block.
pub fn image_block_anthropic(source: &ImageSource) -> (r: Json)
    ensures
        r@ == image_json(source@),
{
    let inner = match source {
        ImageSource::Base64 { media_type, data } => Json::object().with(
            "type",
            Json::text("base64"),
        ).with("media_type", Json::text(media_type.as_str())).with(
            "data",
            Json::text(data.as_str()),
        ),
        ImageSource::Url { url } => Json::object().with("type", Json::text("url")).with(
            "url",
            Json::text(url.as_str()),
        ),
    };
    Json::object().with("type", Json::text("image")).with("source", inner)
}

/// A tool's answer as a block.
fn tool_result_block(id: &str, content: &str, is_error: bool) -> (r: Json)
    ensures
        r@ == tool_result_json(id@, content@, is_error),
{
    let plain = Json::object().with("type", Json::text("tool_result")).with(
        "tool_use_id",
        Json::text(id),
    ).with("content", Json::text(content));
    if is_error {
        plain.with("is_error", Json::Bool(true))
    } else {
        plain
    }
}

/// A tool call as a block.
fn tool_use_block(id: &str, name: &str, input: Json) -> (r: Json)
    ensures
        r@ == tool_use_json(id@, name@, input@),
{
    Json::object().with("type", Json::text("tool_use")).with("id", Json::text(id)).with(
        "name",
        Json::text(name),
    ).with("input", input)
}

/// A block of a message, as it is sent.
fn to_block(block: &ContentBlock) -> (r: Json)
    ensures
        r@ == block_json(block@),
{
    match block {
        ContentBlock::Text { text } => Json::object().with("type", Json::text("text")).with(
            "text",
            Json::text(text.as_str()),
        ),
        ContentBlock::Image { source } => image_block_anthropic(source),
        ContentBlock::ToolUse { id, name, input } => tool_use_block(
            id.as_str(),
            name.as_str(),
            input.clone(),
        ),
        ContentBlock::ToolResult { tool_use_id, content, is_error } => tool_result_block(
            tool_use_id.as_str(),
            content.as_str(),
            *is_error,
        ),
    }
}

/// A message of a role and its blocks.
fn make_message(role: &str, blocks: Vec<Json>) -> (r: Json)
    ensures
        r@ == role_message(role@, items_view(blocks@)),
{
    broadcast use lemma_array_view;
    Json::object().with("role", Json::text(role)).with("content", Json::Array(blocks))
}

/// A message, as it is sent.
pub fn to_anthropic_message(message: &Message) -> (r: Json)
    ensures
        r@ == message_json(message@),
{
    let role: &str = match message.role {
        Role::User => "user",
        Role::Assistant => "assistant",
        Role::Tool => "user",
    };
    let ghost views = message@.content;
    let mut blocks: Vec<Json> = Vec::new();
    let mut i: usize = 0;
    while i < message.content.len()
        invariant
            views == blocks_view(message.content@),
            i <= message.content@.len(),
            blocks@.len() == i,
            forall|k: int| 0 <= k < blocks@.len() ==> #[trigger] blocks@[k]@ == block_json(views[k]),
        decreases message.content@.len() - i,
    {
        blocks.push(to_block(&message.content[i]));
        i += 1;
    }
    assert(items_view(blocks@) =~= views.map_values(|block: BlockView| block_json(block)));
    make_message(role, blocks)
}

/// What is kept between the events of one answer.
#[derive(Debug, Default)]
pub struct StreamState {
    /// The id of the tool call that is open.
    pub current_tool_id: Option<String>,
    /// The name of the tool that is being called.
    pub current_tool_name: Option<String>,
    /// The arguments of the call so far.
    pub tool_input_buffer: String,
    /// Events that are still to be handed out, the next one last.
    pub buffered_events: Vec<StreamEvent>,
}

/// What a [`StreamState`] holds.
#[verifier::ext_equal]
pub struct AnthropicView {
    /// The id of the tool call that is open.
    pub current_tool_id: Option<Seq<char>>,
    /// The name of the tool that is being called.
    pub current_tool_name: Option<Seq<char>>,
    /// The arguments of the call so far.
    pub tool_input_buffer: Seq<char>,
    /// Events that are still to be handed out, the next one last.
    pub buffered_events: Seq<EventView>,
}

impl View for StreamState {
    type V = AnthropicView;

    open spec fn view(&self) -> AnthropicView {
        AnthropicView {
            current_tool_id: option_text(self.current_tool_id),
            current_tool_name: option_text(self.current_tool_name),
            tool_input_buffer: self.tool_input_buffer@,
            buffered_events: events_view(self.buffered_events@),
        }
    }
}

/// What the tokens of a call come to, where any are counted: both counts, or
/// the prompt's count alone where `by_input` says so.
pub open spec fn tokens_event(usage: JsonView, by_input: bool) -> Option<EventView> {
    let input = anthropic_input(usage);
    let output = count(usage, "output_tokens"@);
    if input > 0 || (!by_input && output > 0) {
        Some(
            EventView::Usage {
                input_tokens: input,
                output_tokens: output,
                cache_hit_tokens: count(usage, "cache_read_input_tokens"@),
                cache_creation_tokens: count(usage, "cache_creation_input_tokens"@),
                reasoning_tokens: 0,
            },
        )
    } else {
        None
    }
}

/// The start of a block: of a tool call, or of reasoning that has text already.
pub open spec fn block_start_event(value: JsonView) -> Option<EventView> {
    match value.field("content_block"@) {
        Some(block) => if block.text_field("type"@) == Some("tool_use"@) {
            match (block.text_field("id"@), block.text_field("name"@)) {
                (Some(id), Some(name)) => Some(EventView::ToolUseStart { id, name }),
                _ => None,
            }
        } else if block.text_field("type"@) == Some("thinking"@) {
            match block.text_field("thinking"@) {
                Some(text) => if text.len() > 0 {
                    Some(EventView::ReasoningDelta(text))
                } else {
                    None
                },
                None => None,
            }
        } else {
            None
        },
        None => None,
    }
}

/// More of a block: of its text, of the arguments of a tool call, or of the
/// reasoning.
pub open spec fn block_delta_event(value: JsonView) -> Option<EventView> {
    match value.field("delta"@) {
        Some(delta) => if delta.text_field("type"@) == Some("text_delta"@) {
            match delta.text_field("text"@) {
                Some(text) => Some(EventView::TextDelta(text)),
                None => None,
            }
        } else if delta.text_field("type"@) == Some("input_json_delta"@) {
            match delta.text_field("partial_json"@) {
                Some(text) => Some(EventView::ToolInputDelta(text)),
                None => None,
            }
        } else if delta.text_field("type"@) == Some("thinking_delta"@) {
            match delta.text_field("thinking"@) {
                Some(text) => Some(EventView::ReasoningDelta(text)),
                None => None,
            }
        } else {
            None
        },
        None => None,
    }
}

/// The text of an error event.
pub open spec fn error_text(value: JsonView) -> Seq<char> {
    match value.field("error"@) {
        Some(error) => match error.text_field("message"@) {
            Some(text) => text,
            None => "Unknown error"@,
        },
        None => "Unknown error"@,
    }
}

/// The event that a message of the stream comes to.
pub open spec fn anthropic_event(value: JsonView, state: AnthropicView) -> Option<EventView> {
    match value.text_field("type"@) {
        Some(kind) => if kind == "content_block_start"@ {
            block_start_event(value)
        } else if kind == "content_block_delta"@ {
            block_delta_event(value)
        } else if kind == "content_block_stop"@ {
            if state.current_tool_id is Some {
                Some(EventView::ToolUseEnd)
            } else {
                None
            }
        } else if kind == "message_delta"@ {
            match value.field("usage"@) {
                Some(usage) => tokens_event(usage, false),
                None => None,
            }
        } else if kind == "message_start"@ {
            match value.field("message"@) {
                Some(message) => match message.field("usage"@) {
                    Some(usage) => tokens_event(usage, true),
                    None => None,
                },
                None => None,
            }
        } else if kind == "message_stop"@ {
            Some(EventView::Done)
        } else if kind == "error"@ {
            Some(EventView::Error(error_text(value)))
        } else {
            None
        },
        None => None,
    }
}

/// The state after a message of the stream: a tool call opens and closes, and
/// its arguments grow.
pub open spec fn anthropic_state(value: JsonView, state: AnthropicView) -> AnthropicView {
    match value.text_field("type"@) {
        Some(kind) => if kind == "content_block_start"@ {
            match block_start_event(value) {
                Some(EventView::ToolUseStart { id, name }) => AnthropicView {
                    current_tool_id: Some(id),
                    current_tool_name: Some(name),
                    tool_input_buffer: Seq::empty(),
                    ..state
                },
                _ => state,
            }
        } else if kind == "content_block_delta"@ {
            match block_delta_event(value) {
                Some(EventView::ToolInputDelta(text)) => AnthropicView {
                    tool_input_buffer: state.tool_input_buffer + text,
                    ..state
                },
                _ => state,
            }
        } else if kind == "content_block_stop"@ && state.current_tool_id is Some {
            AnthropicView {
                current_tool_id: None,
                current_tool_name: None,
                tool_input_buffer: Seq::empty(),
                ..state
            }
        } else {
            state
        },
        None => state,
    }
}

/// What an optional event holds.
pub open spec fn option_event(event: Option<StreamEvent>) -> Option<EventView> {
    match event {
        Some(event) => Some(event@),
        None => None,
    }
}

/// The events in a list of at most one.
pub open spec fn single(event: Option<EventView>) -> Option<Seq<EventView>> {
    match event {
        Some(event) => Some(seq![event]),
        None => None,
    }
}

impl StreamState {
    /// The state before the first event.
    pub fn new() -> (r: Self)
        ensures
            r@ == (AnthropicView {
                current_tool_id: None,
                current_tool_name: None,
                tool_input_buffer: Seq::empty(),
                buffered_events: Seq::empty(),
            }),
    {
        let r = StreamState {
            current_tool_id: None,
            current_tool_name: None,
            tool_input_buffer: String::new(),
            buffered_events: Vec::new(),
        };
        assert(r@.buffered_events =~= Seq::empty());
        r
    }
}

/// What the tokens of a call come to.
fn read_tokens(usage: &Json, by_input: bool) -> (r: Option<StreamEvent>)
    ensures
        option_event(r) == tokens_event(usage@, by_input),
{
    let input: u64 = anthropic_total_input_tokens(usage);
    let output: u64 = count_in(usage, "output_tokens");
    if input > 0 || (!by_input && output > 0) {
        let (read, creation): (u64, u64) = extract_anthropic_cache_split(usage);
        Some(
            StreamEvent::Usage {
                input_tokens: input,
                output_tokens: output,
                cache_hit_tokens: read,
                cache_creation_tokens: creation,
                reasoning_tokens: 0,
            },
        )
    } else {
        None
    }
}

/// Takes up the start of a block.
fn read_block_start(value: &Json, state: &mut StreamState) -> (r: Option<StreamEvent>)
    ensures
        option_event(r) == block_start_event(value@),
        final(state)@ == match block_start_event(value@) {
            Some(EventView::ToolUseStart { id, name }) => AnthropicView {
                current_tool_id: Some(id),
                current_tool_name: Some(name),
                tool_input_buffer: Seq::empty(),
                ..old(state)@
            },
            _ => old(state)@,
        },
{
    let block = match value.get("content_block") {
        Some(block) => block,
        None => {
            return None;
        },
    };
    let kind = match block.get_str("type") {
        Some(kind) => kind,
        None => {
            return None;
        },
    };
    if same(kind, "tool_use") {
        match (block.get_str("id"), block.get_str("name")) {
            (Some(id), Some(name)) => {
                state.current_tool_id = Some(id.to_owned());
                state.current_tool_name = Some(name.to_owned());
                state.tool_input_buffer = String::new();
                Some(StreamEvent::ToolUseStart { id: id.to_owned(), name: name.to_owned() })
            },
            _ => None,
        }
    } else if same(kind, "thinking") {
        match block.get_str("thinking") {
            Some(text) => if text.is_empty() {
                None
            } else {
                Some(StreamEvent::ReasoningDelta(text.to_owned()))
            },
            None => None,
        }
    } else {
        None
    }
}

/// Takes up more of a block.
fn read_block_delta(value: &Json, state: &mut StreamState) -> (r: Option<StreamEvent>)
    ensures
        option_event(r) == block_delta_event(value@),
        final(state)@ == match block_delta_event(value@) {
            Some(EventView::ToolInputDelta(text)) => AnthropicView {
                tool_input_buffer: old(state)@.tool_input_buffer + text,
                ..old(state)@
            },
            _ => old(state)@,
        },
{
    let delta = match value.get("delta") {
        Some(delta) => delta,
        None => {
            return None;
        },
    };
    let kind = match delta.get_str("type") {
        Some(kind) => kind,
        None => {
            return None;
        },
    };
    if same(kind, "text_delta") {
        match delta.get_str("text") {
            Some(text) => Some(StreamEvent::TextDelta(text.to_owned())),
            None => None,
        }
    } else if same(kind, "input_json_delta") {
        match delta.get_str("partial_json") {
            Some(text) => {
                state.tool_input_buffer.append(text);
                Some(StreamEvent::ToolInputDelta(text.to_owned()))
            },
            None => None,
        }
    } else if same(kind, "thinking_delta") {
        match delta.get_str("thinking") {
            Some(text) => Some(StreamEvent::ReasoningDelta(text.to_owned())),
            None => None,
        }
    } else {
        None
    }
}

/// Takes up a message of the stream that has been read as JSON.
pub fn read_anthropic_event(value: &Json, state: &mut StreamState) -> (r: Option<StreamEvent>)
    ensures
        option_event(r) == anthropic_event(value@, old(state)@),
        final(state)@ == anthropic_state(value@, old(state)@),
{
    let kind = match value.get_str("type") {
        Some(kind) => kind,
        None => {
            return None;
        },
    };
    if same(kind, "content_block_start") {
        read_block_start(value, state)
    } else if same(kind, "content_block_delta") {
        read_block_delta(value, state)
    } else if same(kind, "content_block_stop") {
        if state.current_tool_id.is_some() {
            state.current_tool_id = None;
            state.current_tool_name = None;
            state.tool_input_buffer = String::new();
            Some(StreamEvent::ToolUseEnd)
        } else {
            None
        }
    } else if same(kind, "message_delta") {
        match value.get("usage") {
            Some(usage) => read_tokens(usage, false),
            None => None,
        }
    } else if same(kind, "message_start") {
        match value.get("message") {
            Some(message) => match message.get("usage") {
                Some(usage) => read_tokens(usage, true),
                None => None,
            },
            None => None,
        }
    } else if same(kind, "message_stop") {
        Some(StreamEvent::Done)
    } else if same(kind, "error") {
        let text: &str = match value.get("error") {
            Some(error) => match error.get_str("message") {
                Some(text) => text,
                None => "Unknown error",
            },
            None => "Unknown error",
        };
        Some(StreamEvent::Error(text.to_owned()))
    } else {
        None
    }
}

/// Takes up a message of the stream. One that is not JSON changes nothing.
pub fn parse_anthropic_sse(data: &str, state: &mut StreamState) -> (r: Option<Vec<StreamEvent>>)
    ensures
        match text_as_json(data@) {
            Some(value) => option_events(r) == single(anthropic_event(value, old(state)@))
                && final(state)@ == anthropic_state(value, old(state)@),
            None => r is None && final(state)@ == old(state)@,
        },
{
    match parse_json(data) {
        Some(value) => match read_anthropic_event(&value, state) {
            Some(event) => {
                let mut events: Vec<StreamEvent> = Vec::new();
                events.push(event);
                assert(events_view(events@) =~= seq![event@]);
                Some(events)
            },
            None => None,
        },
        None => None,
    }
}

/// The step at the end of the stream, or after an error: what is buffered
/// comes first.
pub open spec fn end_step(state: AnthropicView, otherwise: StepView) -> StepView {
    if state.buffered_events.len() > 0 {
        StepView::Yield(state.buffered_events.last())
    } else {
        otherwise
    }
}

/// The step that follows what the stream yields.
pub open spec fn anthropic_step(item: SseItem, state: AnthropicView) -> StepView {
    match item {
        SseItem::Open => StepView::Wait,
        SseItem::Message(data) => match text_as_json(data@) {
            Some(value) => match anthropic_event(value, state) {
                Some(event) => StepView::Yield(event),
                None => StepView::Wait,
            },
            None => StepView::Wait,
        },
        SseItem::Failed(text) => end_step(
            state,
            if mentions(text@, "Stream ended"@) {
                StepView::Finish
            } else {
                StepView::Fail("SSE error: "@ + text@)
            },
        ),
        SseItem::Ended => end_step(state, StepView::Finish),
    }
}

/// The state after what the stream yields.
pub open spec fn anthropic_step_state(item: SseItem, state: AnthropicView) -> AnthropicView {
    match item {
        SseItem::Open => state,
        SseItem::Message(data) => match text_as_json(data@) {
            Some(value) => anthropic_state(value, state),
            None => state,
        },
        _ => if state.buffered_events.len() > 0 {
            AnthropicView { buffered_events: state.buffered_events.drop_last(), ..state }
        } else {
            state
        },
    }
}

/// Takes up what the stream yields.
pub fn next_anthropic_step(item: SseItem, state: &mut StreamState) -> (r: StreamStep)
    ensures
        r@ == anthropic_step(item, old(state)@),
        final(state)@ == anthropic_step_state(item, old(state)@),
{
    let ghost start = state@;
    match item {
        SseItem::Open => StreamStep::Wait,
        SseItem::Message(data) => match parse_json(data.as_str()) {
            Some(value) => match read_anthropic_event(&value, state) {
                Some(event) => StreamStep::Yield(event),
                None => StreamStep::Wait,
            },
            None => StreamStep::Wait,
        },
        SseItem::Failed(text) => match state.buffered_events.pop() {
            Some(event) => {
                assert(state@.buffered_events =~= start.buffered_events.drop_last());
                StreamStep::Yield(event)
            },
            None => {
                assert(state@.buffered_events =~= start.buffered_events);
                if contains(text.as_str(), "Stream ended") {
                    StreamStep::Finish
                } else {
                    StreamStep::Fail(join2("SSE error: ", text.as_str()))
                }
            },
        },
        SseItem::Ended => match state.buffered_events.pop() {
            Some(event) => {
                assert(state@.buffered_events =~= start.buffered_events.drop_last());
                StreamStep::Yield(event)
            },
            None => {
                assert(state@.buffered_events =~= start.buffered_events);
                StreamStep::Finish
            },
        },
    }
}

/// Anthropic's Messages API, as it is to be called.
#[derive(Debug)]
pub struct AnthropicProvider {
    /// The address of the API, without a slash at its end.
    pub base_url: String,
    /// The model's id.
    pub model: String,
    /// The key.
    pub api_key: Option<String>,
    /// Extra parameters for the request.
    pub params: Option<Json>,
    /// Whether the model takes images.
    pub supports_images: bool,
    /// The name under which the client presents itself.
    pub user_agent: Option<String>,
    /// Whether cache entries are asked to live an hour.
    pub cache_ttl_1h: bool,
}

/// The version of the API that requests are written for.
pub const API_VERSION: &'static str = "2023-06-01";

/// The headers of a request with this key by a client of this name.
pub open spec fn api_headers(api_key: Option<Seq<char>>, user_agent: Option<Seq<char>>) -> Seq<
    (Seq<char>, Seq<char>),
> {
    seq![("anthropic-version"@, API_VERSION@)] + (match api_key {
        Some(key) => seq![("x-api-key"@, key)],
        None => Seq::empty(),
    }) + (match user_agent {
        Some(name) => seq![("user-agent"@, name)],
        None => Seq::empty(),
    })
}

/// A tool, as it is sent.
pub open spec fn tool_json(tool: ToolView) -> JsonView {
    with_field(
        object2(
            "name"@,
            JsonView::Text(tool.name),
            "description"@,
            JsonView::Text(tool.description),
        ),
        "input_schema"@,
        plain_schema(tool.input_schema),
    )
}

/// The request before the extra parameters.
pub open spec fn plain_body(
    model: Seq<char>,
    messages: Seq<JsonView>,
    tools: Seq<ToolView>,
    system: Seq<char>,
) -> JsonView {
    let base = with_field(
        with_field(
            object2("model"@, JsonView::Text(model), "max_tokens"@, number_view(16384)),
            "stream"@,
            JsonView::Bool(true),
        ),
        "messages"@,
        JsonView::Array(messages),
    );
    let with_system = if system.len() > 0 {
        with_field(base, "system"@, JsonView::Text(system))
    } else {
        base
    };
    if tools.len() > 0 {
        with_field(
            with_system,
            "tools"@,
            JsonView::Array(tools.map_values(|tool: ToolView| tool_json(tool))),
        )
    } else {
        with_system
    }
}

/// The document with the extra parameters set in it, where there are any.
pub open spec fn with_params(body: JsonView, params: Option<JsonView>) -> JsonView {
    match params {
        Some(params) => overlaid(body, params),
        None => body,
    }
}

/// The request. The cache breakpoints come last, so that they stand in what
/// the extra parameters override, too.
pub open spec fn request_body(
    model: Seq<char>,
    params: Option<JsonView>,
    messages: Seq<JsonView>,
    tools: Seq<ToolView>,
    system: Seq<char>,
) -> JsonView {
    with_breakpoints(with_params(plain_body(model, messages, tools, system), params))
}

/// The arguments of a tool call as a document; an empty object where their
/// text is not JSON.
pub open spec fn call_input(arguments: Seq<char>) -> JsonView {
    match text_as_json(arguments) {
        Some(input) => input,
        None => empty_object(),
    }
}

/// The blocks of an answer: its text, where there is any, and its tool calls.
pub open spec fn answer_blocks(
    text: Seq<char>,
    calls: Seq<(Seq<char>, Seq<char>, Seq<char>)>,
) -> Seq<JsonView> {
    (if text.len() > 0 {
        seq![text_block(text)]
    } else {
        Seq::empty()
    }) + calls.map_values(
        |call: (Seq<char>, Seq<char>, Seq<char>)| tool_use_json(call.0, call.1, call_input(call.2)),
    )
}

impl AnthropicProvider {
    /// The API at `base_url`, for the model `model`.
    pub fn new(
        base_url: &str,
        model: &str,
        api_key: Option<&str>,
        params: Option<Json>,
        supports_images: bool,
        user_agent: Option<&str>,
        cache_ttl_1h: bool,
    ) -> (r: Self)
        ensures
            r.base_url@ == without_trailing(base_url@, '/'),
            r.model@ == model@,
            option_text(r.api_key) == option_str(api_key),
            params_view(r.params) == params_view(params),
            r.supports_images == supports_images,
            option_text(r.user_agent) == option_str(user_agent),
            r.cache_ttl_1h == cache_ttl_1h,
    {
        AnthropicProvider {
            base_url: strip_trailing(base_url, '/'),
            model: model.to_owned(),
            api_key: owned(api_key),
            params,
            supports_images,
            user_agent: owned(user_agent),
            cache_ttl_1h,
        }
    }

    /// The address that requests are sent to.
    pub fn url(&self) -> (r: String)
        ensures
            r@ == self.base_url@ + "/messages"@,
    {
        join2(self.base_url.as_str(), "/messages")
    }

    /// The headers of a request, besides its content type.
    pub fn headers(&self) -> (r: Vec<(String, String)>)
        ensures
            headers_view(r@) == api_headers(option_text(self.api_key), option_text(self.user_agent)),
    {
        let mut headers: Vec<(String, String)> = Vec::new();
        headers.push(("anthropic-version".to_owned(), API_VERSION.to_owned()));
        if let Some(key) = &self.api_key {
            headers.push(("x-api-key".to_owned(), key.clone()));
        }
        if let Some(name) = &self.user_agent {
            headers.push(("user-agent".to_owned(), name.clone()));
        }
        assert(headers_view(headers@) =~= api_headers(
            option_text(self.api_key),
            option_text(self.user_agent),
        ));
        headers
    }

    /// The request of the messages in the form in which they are sent.
    fn body_of(&self, messages: Vec<Json>, tools: &[ToolDefinition], system: &str) -> (r: Json)
        ensures
            r@ == request_body(
                self.model@,
                params_view(self.params),
                items_view(messages@),
                tools_view(tools@),
                system@,
            ),
    {
        broadcast use lemma_array_view;
        let mut body = Json::object().with("model", Json::text(self.model.as_str())).with(
            "max_tokens",
            Json::uint(16384),
        ).with("stream", Json::Bool(true)).with("messages", Json::Array(messages));
        if !system.is_empty() {
            body = body.with("system", Json::text(system));
        }
        if tools.len() > 0 {
            let ghost views = tools_view(tools@);
            let mut list: Vec<Json> = Vec::new();
            let mut i: usize = 0;
            while i < tools.len()
                invariant
                    views == tools_view(tools@),
                    i <= tools@.len(),
                    list@.len() == i,
                    forall|k: int| 0 <= k < list@.len() ==> #[trigger] list@[k]@ == tool_json(views[k]),
                decreases tools@.len() - i,
            {
                let tool = &tools[i];
                list.push(
                    Json::object().with("name", Json::text(tool.name.as_str())).with(
                        "description",
                        Json::text(tool.description.as_str()),
                    ).with("input_schema", sanitize_input_schema(tool.input_schema.clone())),
                );
                i += 1;
            }
            assert(items_view(list@) =~= views.map_values(|tool: ToolView| tool_json(tool)));
            body = body.with("tools", Json::Array(list));
        }
        merge_params(&mut body, &self.params);
        apply_cache_breakpoints(&mut body);
        body
    }

    /// The request that sends `messages`.
    pub fn complete_body(
        &self,
        messages: &[Message],
        tools: &[ToolDefinition],
        system: &str,
    ) -> (r: Json)
        ensures
            r@ == request_body(
                self.model@,
                params_view(self.params),
                messages@.map_values(|message: Message| message_json(message@)),
                tools_view(tools@),
                system@,
            ),
    {
        let mut list: Vec<Json> = Vec::new();
        let mut i: usize = 0;
        while i < messages.len()
            invariant
                i <= messages@.len(),
                list@.len() == i,
                forall|k: int|
                    0 <= k < list@.len() ==> #[trigger] list@[k]@ == message_json(messages@[k]@),
            decreases messages@.len() - i,
        {
            list.push(to_anthropic_message(&messages[i]));
            i += 1;
        }
        assert(items_view(list@) =~= messages@.map_values(
            |message: Message| message_json(message@),
        ));
        self.body_of(list, tools, system)
    }

    /// The request that sends a conversation again.
    pub fn complete_raw_body(
        &self,
        raw_messages: &[Json],
        tools: &[ToolDefinition],
        system: &str,
    ) -> (r: Json)
        ensures
            r@ == request_body(
                self.model@,
                params_view(self.params),
                repaired(sendable(items_view(raw_messages@))),
                tools_view(tools@),
                system@,
            ),
    {
        self.body_of(filter_valid_messages(raw_messages), tools, system)
    }

    /// A message of the user, as it is kept in a conversation.
    pub fn format_user_message(&self, blocks: &[ContentBlock]) -> (r: Json)
        ensures
            r@ == role_message("user"@, user_blocks_json(blocks_view(blocks@))),
    {
        let ghost views = blocks_view(blocks@);
        let mut list: Vec<Json> = Vec::new();
        let mut i: usize = 0;
        assert(items_view(list@) =~= Seq::empty());
        while i < blocks.len()
            invariant
                views == blocks_view(blocks@),
                i <= blocks@.len(),
                items_view(list@) == user_blocks_json(views.take(i as int)),
            decreases blocks@.len() - i,
        {
            let ghost before = items_view(list@);
            proof {
                assert(views.take(i + 1).drop_last() =~= views.take(i as int));
                assert(views.take(i + 1).last() == blocks@[i as int]@);
            }
            let keep: bool = match &blocks[i] {
                ContentBlock::Text { .. } => true,
                ContentBlock::Image { .. } => true,
                _ => false,
            };
            if keep {
                let block = to_block(&blocks[i]);
                list.push(block);
                assert(items_view(list@) =~= before.push(block@));
            }
            i += 1;
        }
        assert(views.take(blocks@.len() as int) =~= views);
        make_message("user", list)
    }

    /// A tool's answer, as it is kept in a conversation.
    pub fn format_tool_result(&self, tool_use_id: &str, content: &str, is_error: bool) -> (r: Json)
        ensures
            r@ == role_message("user"@, seq![tool_result_json(tool_use_id@, content@, is_error)]),
    {
        let mut blocks: Vec<Json> = Vec::new();
        let block = tool_result_block(tool_use_id, content, is_error);
        blocks.push(block);
        assert(items_view(blocks@) =~= seq![block@]);
        make_message("user", blocks)
    }

    /// An answer of the model, as it is kept in a conversation. Reasoning is
    /// not kept.
    pub fn build_raw_assistant_message(
        &self,
        text: &str,
        reasoning: &str,
        tool_calls: &[(String, String, String)],
    ) -> (r: Json)
        ensures
            r@ == role_message("assistant"@, answer_blocks(text@, call_views(tool_calls@))),
    {
        let ghost calls = call_views(tool_calls@);
        let ghost call_json = |call: (Seq<char>, Seq<char>, Seq<char>)|
            tool_use_json(call.0, call.1, call_input(call.2));
        let mut blocks: Vec<Json> = Vec::new();
        if !text.is_empty() {
            blocks.push(
                Json::object().with("type", Json::text("text")).with("text", Json::text(text)),
            );
        }
        let ghost head = items_view(blocks@);
        assert(head =~= (if text@.len() > 0 {
            seq![text_block(text@)]
        } else {
            Seq::empty()
        }));
        let mut i: usize = 0;
        assert(head + calls.take(0).map_values(call_json) =~= head);
        while i < tool_calls.len()
            invariant
                calls == call_views(tool_calls@),
                call_json == (|call: (Seq<char>, Seq<char>, Seq<char>)|
                    tool_use_json(call.0, call.1, call_input(call.2))),
                i <= tool_calls@.len(),
                items_view(blocks@) == head + calls.take(i as int).map_values(call_json),
            decreases tool_calls@.len() - i,
        {
            let ghost before = items_view(blocks@);
            let (id, name, arguments) = &tool_calls[i];
            let input = match parse_json(arguments.as_str()) {
                Some(input) => input,
                None => Json::object(),
            };
            let block = tool_use_block(id.as_str(), name.as_str(), input);
            assert(block@ == call_json(calls[i as int]));
            blocks.push(block);
            assert(items_view(blocks@) =~= before.push(block@));
            assert(calls.take(i + 1).map_values(call_json) =~= calls.take(i as int).map_values(
                call_json,
            ).push(block@));
            i += 1;
            assert(items_view(blocks@) =~= head + calls.take(i as int).map_values(call_json));
        }
        assert(calls.take(tool_calls@.len() as int) =~= calls);
        make_message("assistant", blocks)
    }
}

proof fn lemma_body_names()
    ensures
        "tools"@ != "system"@,
        "tools"@ != "messages"@,
        "system"@ != "messages"@,
{
    reveal_strlit("tools");
    reveal_strlit("system");
    reveal_strlit("messages");
    assert("tools"@.len() != "system"@.len());
    assert("tools"@.len() != "messages"@.len());
    assert("system"@.len() != "messages"@.len());
}

/// Marking an array either marks something or changes nothing.
proof fn lemma_array_marked(json: JsonView, name: Seq<char>)
    ensures
        array_marked(json, name) == json || (json.array_field(name) is Some && array_marked(
            json,
            name,
        ).field(name) is Some && has_marker(array_marked(json, name).field(name)->0)),
{
    if let Some(items) = json.array_field(name) {
        if items.len() > 0 && items.last() is Object {
            let last = last_marked(items);
            assert(last[items.len() - 1] == marked(items.last()));
            assert(has_marker(marked(items.last())));
            lemma_marker_in_item(last, items.len() - 1);
        } else {
            assert(last_marked(items) =~= items);
            lemma_same_field(json, name);
        }
    }
}

/// Marking a message either marks something or changes nothing.
proof fn lemma_message_marked(message: JsonView)
    ensures
        message_marked(message) == message || has_marker(message_marked(message)),
{
    let blocks = with_block_content(message);
    lemma_array_marked(blocks, "content"@);
    if let Some(text) = message.text_field("content"@) {
        let items = seq![text_block(text)];
        assert(blocks.array_field("content"@) == Some(items));
        let last = last_marked(items);
        assert(last[0] == marked(text_block(text)));
        assert(has_marker(marked(text_block(text))));
        lemma_marker_in_item(last, 0);
        lemma_marker_in_field(message_marked(message)->Object_0, "content"@);
    } else if array_marked(blocks, "content"@) != blocks {
        lemma_marker_in_field(message_marked(message)->Object_0, "content"@);
    }
}

proof fn lemma_messages_marked(body: JsonView)
    ensures
        messages_marked(body) == body || (messages_marked(body).field("messages"@) is Some
            && has_marker(messages_marked(body).field("messages"@)->0)),
{
    if let Some(messages) = body.array_field("messages"@) {
        let window = window_marked(messages);
        if window =~= messages {
            lemma_same_field(body, "messages"@);
        } else {
            let i = choose|i: int| 0 <= i < messages.len() && window[i] != messages[i];
            lemma_message_marked(messages[i]);
            lemma_marker_in_item(window, i);
        }
    }
}

/// A request that has marks of its own keeps them, and gets no others.
pub proof fn law_own_marks_win(body: JsonView)
    requires
        has_marker(body),
    ensures
        with_breakpoints(body) == body,
{
}

/// Setting the breakpoints twice is the same as setting them once: there are
/// never more than the first time left.
pub proof fn law_breakpoints_idempotent(body: JsonView)
    ensures
        with_breakpoints(with_breakpoints(body)) == with_breakpoints(body),
{
    if !has_marker(body) {
        lemma_body_names();
        let step1 = array_marked(body, "tools"@);
        let step2 = with_block_system(step1);
        let step3 = array_marked(step2, "system"@);
        let step4 = messages_marked(step3);
        lemma_array_marked(body, "tools"@);
        lemma_array_marked(step2, "system"@);
        lemma_messages_marked(step3);
        if step4 != step3 {
            lemma_marker_in_field(step4->Object_0, "messages"@);
        } else if step3 != step2 {
            lemma_marker_in_field(step4->Object_0, "system"@);
        } else if step2 != step1 {
            let text = step1.text_field("system"@)->0;
            let items = seq![text_block(text)];
            assert(step2.array_field("system"@) == Some(items));
            let last = last_marked(items);
            assert(last[0] == marked(text_block(text)));
            assert(has_marker(marked(text_block(text))));
            lemma_marker_in_item(last, 0);
            lemma_marker_in_field(step3->Object_0, "system"@);
        } else if step1 != body {
            lemma_marker_in_field(step4->Object_0, "tools"@);
        }
    }
}

/// The newest message is never marked, and of the others only the two before
/// it are: every other message stays as it is.
pub proof fn law_only_the_window_is_marked(body: JsonView, messages: Seq<JsonView>, i: int)
    requires
        body.array_field("messages"@) == Some(messages),
        0 <= i < messages.len(),
        i != messages.len() - 2,
        i != messages.len() - 3,
    ensures
        with_breakpoints(body).array_field("messages"@) is Some,
        with_breakpoints(body).array_field("messages"@)->0.len() == messages.len(),
        with_breakpoints(body).array_field("messages"@)->0[i] == messages[i],
{
    lemma_body_names();
}

/// A step into a document.
pub enum Step {
    /// Into the field of this name.
    Field(Seq<char>),
    /// Into the item at this position.
    Item(int),
}

/// What stands in the document at the end of the path.
pub open spec fn at(json: JsonView, path: Seq<Step>) -> Option<JsonView>
    decreases path.len(),
{
    if path.len() == 0 {
        Some(json)
    } else {
        match (json, path[0]) {
            (JsonView::Object(fields), Step::Field(name)) => if fields.dom().contains(name) {
                at(fields[name], path.drop_first())
            } else {
                None
            },
            (JsonView::Array(items), Step::Item(i)) => if 0 <= i < items.len() {
                at(items[i], path.drop_first())
            } else {
                None
            },
            _ => None,
        }
    }
}

/// Whether a breakpoint stands at the end of the path.
pub open spec fn marked_at(json: JsonView, path: Seq<Step>) -> bool {
    match at(json, path) {
        Some(found) => found.field("cache_control"@) is Some,
        None => false,
    }
}

/// The last item of the array that stands in the field `name` of the document at
/// the end of the path.
pub open spec fn tail_of(json: JsonView, path: Seq<Step>, name: Seq<char>) -> Seq<Step> {
    let last = match at(json, path) {
        Some(found) => match found.array_field(name) {
            Some(items) => items.len() - 1,
            None => -1,
        },
        None => -1,
    };
    path.push(Step::Field(name)).push(Step::Item(last))
}

/// The four places in a request where breakpoints are set: the ends of the
/// tools, of the system prompt and of the two messages before the newest.
pub open spec fn breakpoint_places(body: JsonView) -> Seq<Seq<Step>> {
    let n = match body.array_field("messages"@) {
        Some(messages) => messages.len() as int,
        None => 0,
    };
    let messages = seq![Step::Field("messages"@)];
    seq![
        tail_of(body, Seq::empty(), "tools"@),
        tail_of(body, Seq::empty(), "system"@),
        tail_of(body, messages.push(Step::Item(n - 3)), "content"@),
        tail_of(body, messages.push(Step::Item(n - 2)), "content"@),
    ]
}

proof fn lemma_no_marker_nowhere(json: JsonView, path: Seq<Step>)
    requires
        !has_marker(json),
    ensures
        !marked_at(json, path),
    decreases path.len(),
{
    if path.len() > 0 {
        match (json, path[0]) {
            (JsonView::Object(fields), Step::Field(name)) => if fields.dom().contains(name) {
                if has_marker(fields[name]) {
                    lemma_marker_in_field(fields, name);
                }
                lemma_no_marker_nowhere(fields[name], path.drop_first());
            },
            (JsonView::Array(items), Step::Item(i)) => if 0 <= i < items.len() {
                if has_marker(items[i]) {
                    lemma_marker_in_item(items, i);
                }
                lemma_no_marker_nowhere(items[i], path.drop_first());
            },
            _ => {},
        }
    }
}

/// An item without marks that gets the mark has it at its top and nowhere else.
proof fn lemma_marked_at_top(json: JsonView, path: Seq<Step>)
    requires
        !has_marker(json),
        marked_at(marked(json), path),
    ensures
        path.len() == 0,
{
    if path.len() > 0 {
        if let JsonView::Object(fields) = json {
            reveal_strlit("type");
            reveal_strlit("cache_control");
            assert("type"@.len() != "cache_control"@.len());
            if path[0] == Step::Field("cache_control"@) {
                let rest = path.drop_first();
                assert(at(marked(json), path) == at(marker(), rest));
                if rest.len() > 0 {
                    let deep = rest.drop_first();
                    assert(at(JsonView::Text("ephemeral"@), deep) is Some ==> deep.len() == 0);
                }
            } else {
                assert(at(marked(json), path) == at(json, path));
                lemma_no_marker_nowhere(json, path);
            }
        } else {
            lemma_no_marker_nowhere(json, path);
        }
    } else {
        assert(at(marked(json), path) == Some(marked(json)));
    }
}

/// Items without marks of which the last gets the mark have it there and
/// nowhere else.
proof fn lemma_marked_at_tail(items: Seq<JsonView>, path: Seq<Step>)
    requires
        !has_marker(JsonView::Array(items)),
        marked_at(JsonView::Array(last_marked(items)), path),
    ensures
        items.len() > 0,
        path =~= seq![Step::Item(items.len() - 1)],
{
    if path.len() == 0 {
        assert(at(JsonView::Array(last_marked(items)), path) == Some(
            JsonView::Array(last_marked(items)),
        ));
    }
    if let Step::Item(i) = path[0] {
        if 0 <= i < items.len() {
            if has_marker(items[i]) {
                lemma_marker_in_item(items, i);
            }
            let rest = path.drop_first();
            if i == items.len() - 1 {
                lemma_marked_at_top(items[i], rest);
            } else {
                lemma_no_marker_nowhere(items[i], rest);
            }
        }
    }
}

/// A block of text has no mark.
proof fn lemma_text_has_no_marker(text: Seq<char>)
    ensures
        !has_marker(JsonView::Array(seq![text_block(text)])),
{
    reveal_with_fuel(has_marker, 3);
    reveal_strlit("type");
    reveal_strlit("text");
    reveal_strlit("cache_control");
    assert("type"@.len() == 4 && "text"@.len() == 4 && "cache_control"@.len() == 13);
    let items = seq![text_block(text)];
    assert(!has_marker(text_block(text)));
    assert(items[0] == text_block(text));
}

proof fn lemma_no_marker_in_field(json: JsonView, name: Seq<char>)
    requires
        !has_marker(json),
        json.field(name) is Some,
    ensures
        !has_marker(json.field(name)->0),
{
    if has_marker(json.field(name)->0) {
        lemma_marker_in_field(json->Object_0, name);
    }
}

/// A message without marks has, where it is marked, its mark on the last block
/// of its content and nowhere else.
proof fn lemma_message_marked_at(message: JsonView, path: Seq<Step>)
    requires
        !has_marker(message),
        marked_at(message_marked(message), path),
    ensures
        path =~= tail_of(message_marked(message), Seq::empty(), "content"@),
{
    let blocks = with_block_content(message);
    let out = message_marked(message);
    reveal_strlit("content");
    reveal_strlit("cache_control");
    assert("content"@.len() != "cache_control"@.len());
    let none: Seq<Step> = Seq::empty();
    assert(at(out, none) == Some(out));
    if let Some(text) = message.text_field("content"@) {
        lemma_text_has_no_marker(text);
    } else if message.field("content"@) is Some {
        lemma_no_marker_in_field(message, "content"@);
    }
    if path.len() == 0 {
        assert(at(out, path) == Some(out));
        assert(message.field("cache_control"@) is Some);
    } else if path[0] == Step::Field("content"@) {
        let rest = path.drop_first();
        if let Some(items) = blocks.array_field("content"@) {
            assert(at(out, path) == at(JsonView::Array(last_marked(items)), rest));
            lemma_marked_at_tail(items, rest);
            assert(path =~= seq![path[0]] + rest);
        } else {
            assert(out == message);
            lemma_no_marker_nowhere(message, path);
        }
    } else {
        assert(at(out, path) == at(message, path));
        lemma_no_marker_nowhere(message, path);
    }
}

/// A request without marks of its own gets breakpoints at the four places and
/// nowhere else: there are never more than four.
pub proof fn law_at_most_four_breakpoints(body: JsonView, path: Seq<Step>)
    requires
        !has_marker(body),
        marked_at(with_breakpoints(body), path),
    ensures
        breakpoint_places(with_breakpoints(body)).len() == 4,
        breakpoint_places(with_breakpoints(body)).contains(path),
{
    lemma_body_names();
    reveal_strlit("tools");
    reveal_strlit("system");
    reveal_strlit("messages");
    reveal_strlit("cache_control");
    assert("cache_control"@.len() == 13 && "tools"@.len() == 5);
    assert("system"@.len() == 6 && "messages"@.len() == 8);
    let out = with_breakpoints(body);
    let none: Seq<Step> = Seq::empty();
    let places = breakpoint_places(out);
    assert(at(out, none) == Some(out));
    if path.len() == 0 {
        assert(at(out, path) == Some(out));
        assert(body.field("cache_control"@) is Some);
    } else if path[0] == Step::Field("tools"@) {
        let rest = path.drop_first();
        if body.field("tools"@) is Some {
            lemma_no_marker_in_field(body, "tools"@);
        }
        if let Some(items) = body.array_field("tools"@) {
            assert(at(out, path) == at(JsonView::Array(last_marked(items)), rest));
            lemma_marked_at_tail(items, rest);
            assert(path =~= seq![path[0]] + rest);
            assert(path =~= places[0]);
        } else {
            assert(at(out, path) == at(body, path));
            lemma_no_marker_nowhere(body, path);
        }
    } else if path[0] == Step::Field("system"@) {
        let rest = path.drop_first();
        let given = with_block_system(array_marked(body, "tools"@));
        if let Some(text) = body.text_field("system"@) {
            lemma_text_has_no_marker(text);
        }
        if body.field("system"@) is Some {
            lemma_no_marker_in_field(body, "system"@);
        }
        if let Some(items) = given.array_field("system"@) {
            assert(at(out, path) == at(JsonView::Array(last_marked(items)), rest));
            lemma_marked_at_tail(items, rest);
            assert(path =~= seq![path[0]] + rest);
            assert(path =~= places[1]);
        } else {
            assert(at(out, path) == at(body, path));
            lemma_no_marker_nowhere(body, path);
        }
    } else if path[0] == Step::Field("messages"@) {
        let rest = path.drop_first();
        if body.field("messages"@) is Some {
            lemma_no_marker_in_field(body, "messages"@);
        }
        if let Some(messages) = body.array_field("messages"@) {
            let window = window_marked(messages);
            let n = messages.len() as int;
            assert(out.array_field("messages"@) == Some(window));
            assert(at(out, path) == at(JsonView::Array(window), rest));
            if rest.len() == 0 {
                assert(at(JsonView::Array(window), rest) == Some(JsonView::Array(window)));
            }
            if let Step::Item(i) = rest[0] {
                if 0 <= i < n {
                    let deep = rest.drop_first();
                    if has_marker(messages[i]) {
                        lemma_marker_in_item(messages, i);
                    }
                    if i == n - 3 || i == n - 2 {
                        lemma_message_marked_at(messages[i], deep);
                        let place = seq![Step::Field("messages"@)].push(Step::Item(i));
                        assert(place.drop_first() =~= seq![Step::Item(i)]);
                        assert(place.drop_first().drop_first() =~= none);
                        assert(at(window[i], none) == Some(window[i]));
                        assert(at(JsonView::Array(window), seq![Step::Item(i)]) == Some(window[i]));
                        assert(at(out, place) == Some(window[i]));
                        assert(path =~= place + deep);
                        assert(path =~= tail_of(out, place, "content"@));
                        if i == n - 3 {
                            assert(path =~= places[2]);
                        } else {
                            assert(path =~= places[3]);
                        }
                    } else {
                        lemma_no_marker_nowhere(messages[i], deep);
                    }
                }
            }
        } else {
            assert(at(out, path) == at(body, path));
            lemma_no_marker_nowhere(body, path);
        }
    } else {
        assert(at(out, path) == at(body, path));
        lemma_no_marker_nowhere(body, path);
    }
}

/// A request without marks of its own gets none in its newest message.
pub proof fn law_newest_message_is_not_marked(body: JsonView, messages: Seq<JsonView>)
    requires
        !has_marker(body),
        body.array_field("messages"@) == Some(messages),
        messages.len() > 0,
    ensures
        !has_marker(with_breakpoints(body).array_field("messages"@)->0.last()),
{
    let newest = messages.len() - 1;
    law_only_the_window_is_marked(body, messages, newest);
    if has_marker(messages[newest]) {
        lemma_marker_in_item(messages, newest);
        lemma_marker_in_field(body->Object_0, "messages"@);
    }
}

/// Nothing but the tools, the system prompt and the messages changes.
pub proof fn law_other_fields_stay(body: JsonView, name: Seq<char>)
    requires
        name != "tools"@,
        name != "system"@,
        name != "messages"@,
    ensures
        with_breakpoints(body).field(name) == body.field(name),
{
}

/// The composition keywords are gone from the top of a schema, and every other
/// keyword stays.
pub proof fn law_schema_is_plain(schema: JsonView, name: Seq<char>)
    ensures
        plain_schema(schema).field("oneOf"@) is None,
        plain_schema(schema).field("allOf"@) is None,
        plain_schema(schema).field("anyOf"@) is None,
        name != "oneOf"@ && name != "allOf"@ && name != "anyOf"@ ==> plain_schema(schema).field(name)
            == schema.field(name),
{
}

/// Whether the document is the other one with a breakpoint on it, and otherwise
/// as it was.
pub open spec fn is_marked_copy(copy: JsonView, json: JsonView) -> bool {
    &&& copy.field("cache_control"@) matches Some(mark) && mark.field("type"@) == Some(
        JsonView::Text("ephemeral"@),
    )
    &&& forall|name: Seq<char>|
        name != "cache_control"@ ==> copy.field(name) == #[trigger] json.field(name)
}

/// Whether the items are the others with a breakpoint on the last one, and
/// otherwise as they were.
pub open spec fn are_marked_copies(copies: Seq<JsonView>, items: Seq<JsonView>) -> bool {
    &&& copies.len() == items.len()
    &&& copies.drop_last() == items.drop_last()
    &&& items.last() is Object ==> is_marked_copy(copies.last(), items.last())
}

/// Whether what the content of a message has become holds what it was, with a
/// breakpoint at its end.
pub open spec fn is_marked_content(copy: Option<JsonView>, content: Option<JsonView>) -> bool {
    match content {
        None => copy is None,
        Some(JsonView::Array(blocks)) => match copy {
            Some(JsonView::Array(copies)) => {
                &&& copies.len() == blocks.len()
                &&& blocks.len() > 0 ==> are_marked_copies(copies, blocks)
            },
            _ => false,
        },
        Some(JsonView::Text(text)) => match copy {
            Some(JsonView::Array(copies)) => {
                &&& copies.len() == 1
                &&& copies[0].field("type"@) == Some(JsonView::Text("text"@))
                &&& copies[0].field("text"@) == Some(JsonView::Text(text))
                &&& copies[0].field("cache_control"@) matches Some(mark) && mark.field("type"@)
                    == Some(JsonView::Text("ephemeral"@))
            },
            _ => false,
        },
        Some(other) => copy == Some(other),
    }
}

proof fn lemma_marked_copies(items: Seq<JsonView>)
    requires
        items.len() > 0,
    ensures
        are_marked_copies(last_marked(items), items),
{
    assert(last_marked(items).drop_last() =~= items.drop_last());
}

/// A request without marks of its own gets its breakpoints: on its last tool, at
/// the end of its system prompt and at the end of each of the two messages
/// before the newest. Everything that is marked stays what it was.
pub proof fn law_breakpoints_are_set(body: JsonView, i: int)
    requires
        !has_marker(body),
    ensures
        ({
            let out = with_breakpoints(body);
            &&& match body.field("tools"@) {
                Some(JsonView::Array(tools)) => out.field("tools"@) matches Some(
                    JsonView::Array(copies),
                ) && copies.len() == tools.len() && (tools.len() > 0 ==> are_marked_copies(
                    copies,
                    tools,
                )),
                other => out.field("tools"@) == other,
            }
            &&& match body.field("system"@) {
                Some(JsonView::Text(text)) => if text.len() > 0 {
                    is_marked_content(out.field("system"@), Some(JsonView::Text(text)))
                } else {
                    out.field("system"@) == body.field("system"@)
                },
                other => is_marked_content(out.field("system"@), other),
            }
            &&& match body.field("messages"@) {
                Some(JsonView::Array(messages)) => match out.field("messages"@) {
                    Some(JsonView::Array(copies)) => copies.len() == messages.len() && (0 <= i
                        < messages.len() && (i == messages.len() - 2 || i == messages.len() - 3)
                        ==> is_marked_content(
                        copies[i].field("content"@),
                        messages[i].field("content"@),
                    ) && copies[i].field("role"@) == messages[i].field("role"@)),
                    _ => false,
                },
                other => out.field("messages"@) == other,
            }
        }),
{
    lemma_body_names();
    reveal_strlit("type");
    reveal_strlit("text");
    reveal_strlit("cache_control");
    reveal_strlit("content");
    reveal_strlit("role");
    assert("type"@[1] == 'y' && "text"@[1] == 'e');
    assert("content"@.len() == 7 && "role"@.len() == 4 && "cache_control"@.len() == 13);
    if let Some(JsonView::Array(tools)) = body.field("tools"@) {
        if tools.len() > 0 {
            lemma_marked_copies(tools);
        }
    }
    if let Some(JsonView::Array(blocks)) = body.field("system"@) {
        if blocks.len() > 0 {
            lemma_marked_copies(blocks);
        }
    }
    if let Some(JsonView::Array(messages)) = body.field("messages"@) {
        if 0 <= i < messages.len() {
            let message = messages[i];
            if let Some(JsonView::Array(blocks)) = message.field("content"@) {
                if blocks.len() > 0 {
                    lemma_marked_copies(blocks);
                }
            }
            if let Some(JsonView::Text(text)) = message.field("content"@) {
                assert(last_marked(seq![text_block(text)])[0] == marked(text_block(text)));
            }
        }
    }
    if let Some(JsonView::Text(text)) = body.field("system"@) {
        assert(last_marked(seq![text_block(text)])[0] == marked(text_block(text)));
    }
}

} // verus!
