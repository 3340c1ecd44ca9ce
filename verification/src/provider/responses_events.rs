//! What a stream of the Responses API comes to as a whole, and what is sent to
//! it.
use crate::json::{json_as_text, text_as_json, JsonView};
use crate::provider::anthropic_events::{calls_begun, input_of, is_kind};
use crate::provider::chat_events::{lemma_more_events, lemma_one_event};
use crate::provider::openai_compat::{reasoning_of, text_of};
use crate::provider::openai_responses::{
    all_kept_items, all_message_items, block_call_items, block_parts, call_item, completed_usage,
    done_once, flat_function_json, input_image, kept_items, kept_parts, message_item, message_items,
    output_item, responses_body, responses_events, responses_queue, responses_run, responses_state,
    responses_step, responses_step_state, text_part, ResponsesView,
};
use crate::provider::stream::{SseItem, StepView};
use crate::provider::usage::count;
use crate::provider::wire::{said_blocks, set_or, text_under};
use crate::text::{mentions, trim};
use crate::types::{blocks_text, BlockView, EventView, ImageView, MessageView, Role, ToolView};
use vstd::prelude::*;
use vstd::string::*;

verus! {

/// The delta of an event of the kind `kind`.
pub open spec fn delta_under(value: JsonView, kind: Seq<char>) -> Seq<char> {
    match value.field("delta"@) {
        Some(JsonView::Text(delta)) => if is_kind(value, kind) {
            delta
        } else {
            Seq::empty()
        },
        _ => Seq::empty(),
    }
}

/// The text in a field, or nothing.
pub open spec fn said_at(json: JsonView, name: Seq<char>) -> Seq<char> {
    match json.field(name) {
        Some(JsonView::Text(text)) => text,
        _ => Seq::empty(),
    }
}

/// The function call that an event begins.
pub open spec fn call_added(value: JsonView) -> Option<(Seq<char>, Seq<char>)> {
    match value.field("item"@) {
        Some(item) => if is_kind(value, "response.output_item.added"@) && is_kind(
            item,
            "function_call"@,
        ) && said_at(item, "call_id"@).len() > 0 && said_at(item, "name"@).len() > 0 {
            Some((said_at(item, "call_id"@), said_at(item, "name"@)))
        } else {
            None
        },
        None => None,
    }
}

proof fn lemma_kinds_differ()
    ensures
        "response.output_text.delta"@.len() == 26,
        "response.reasoning_summary_text.delta"@.len() == 37,
        "response.output_item.added"@.len() == 26,
        "response.function_call_arguments.delta"@.len() == 38,
        "response.output_item.done"@.len() == 25,
        "response.completed"@.len() == 18,
        "response.failed"@.len() == 15,
        "response.incomplete"@.len() == 19,
        "error"@.len() == 5,
        "response.output_text.delta"@ != "response.output_item.added"@,
        ""@ == Seq::<char>::empty(),
{
    reveal_strlit("response.output_text.delta");
    reveal_strlit("response.reasoning_summary_text.delta");
    reveal_strlit("response.output_item.added");
    reveal_strlit("response.function_call_arguments.delta");
    reveal_strlit("response.output_item.done");
    reveal_strlit("response.completed");
    reveal_strlit("response.failed");
    reveal_strlit("response.incomplete");
    reveal_strlit("error");
    reveal_strlit("");
    assert(""@ =~= Seq::<char>::empty());
    assert("response.output_text.delta"@[16] != "response.output_item.added"@[16]);
}

proof fn lemma_one_value(value: JsonView, state: ResponsesView)
    ensures
        ({
            let events = responses_events(value, state);
            &&& text_of(events) == delta_under(value, "response.output_text.delta"@)
            &&& reasoning_of(events) == delta_under(
                value,
                "response.reasoning_summary_text.delta"@,
            )
            &&& input_of(events) == delta_under(value, "response.function_call_arguments.delta"@)
            &&& calls_begun(events) == match call_added(value) {
                Some(call) => seq![call],
                None => Seq::empty(),
            }
        }),
{
    lemma_kinds_differ();
    let events = responses_events(value, state);
    let none = Seq::<char>::empty();
    let started = |event: EventView|
        match event {
            EventView::ToolUseStart { id, name } => Some((id, name)),
            _ => None,
        };
    reveal_with_fuel(Seq::filter_map, 3);
    assert(text_of(Seq::<EventView>::empty()) =~= none);
    assert(reasoning_of(Seq::<EventView>::empty()) =~= none);
    assert(input_of(Seq::<EventView>::empty()) =~= none);
    if let Some(JsonView::Text(delta)) = value.field("delta"@) {
        if delta.len() == 0 {
            assert(delta =~= none);
        }
    }
    if is_kind(value, "response.completed"@) {
        let first = completed_usage(value);
        let last = done_once(state);
        lemma_more_events(first, last);
        if first.len() == 1 {
            lemma_one_event(first[0]);
            assert(first =~= seq![first[0]]);
        } else {
            assert(first =~= Seq::<EventView>::empty());
        }
        if last.len() == 1 {
            lemma_one_event(EventView::Done);
        } else {
            assert(last =~= Seq::<EventView>::empty());
        }
        assert(first.filter_map(started) =~= Seq::empty()) by {
            if first.len() == 1 {
                assert(first.drop_last() =~= Seq::<EventView>::empty());
            }
        }
        if last.len() == 1 {
            assert((first + last).drop_last() =~= first);
            assert((first + last).last() is Done);
        } else {
            assert(first + last =~= first);
        }
        assert(calls_begun(events) =~= Seq::empty());
    } else if events.len() == 1 {
        lemma_one_event(events[0]);
        assert(events =~= seq![events[0]]);
        assert(events.drop_last() =~= Seq::<EventView>::empty());
        assert(Seq::<EventView>::empty().filter_map(started) =~= Seq::empty());
        assert(calls_begun(events) =~= match call_added(value) {
            Some(call) => seq![call],
            None => Seq::empty(),
        });
    } else {
        assert(events =~= Seq::<EventView>::empty());
        assert(calls_begun(events) =~= Seq::empty());
    }
}

proof fn lemma_calls_concat(a: Seq<EventView>, b: Seq<EventView>)
    ensures
        calls_begun(a + b) == calls_begun(a) + calls_begun(b),
    decreases b.len(),
{
    if b.len() == 0 {
        assert(a + b =~= a);
        assert(calls_begun(a) + calls_begun(b) =~= calls_begun(a));
    } else {
        lemma_calls_concat(a, b.drop_last());
        assert((a + b).drop_last() =~= a + b.drop_last());
        assert((a + b).last() == b.last());
        assert(calls_begun(a + b) =~= calls_begun(a) + calls_begun(b));
    }
}

/// What a stream hands out is what its events bring, each under its own name and
/// in their order: the joined deltas of the text, of the summary of the
/// reasoning and of the arguments of function calls; and it begins every
/// function call that has an id and a name, with both, once.
pub proof fn law_events_hand_out_what_they_bring(values: Seq<JsonView>, state: ResponsesView)
    ensures
        ({
            let events = responses_run(values, state).0;
            &&& text_of(events) == values.map_values(
                |value: JsonView| delta_under(value, "response.output_text.delta"@),
            ).flatten_alt()
            &&& reasoning_of(events) == values.map_values(
                |value: JsonView| delta_under(value, "response.reasoning_summary_text.delta"@),
            ).flatten_alt()
            &&& input_of(events) == values.map_values(
                |value: JsonView| delta_under(value, "response.function_call_arguments.delta"@),
            ).flatten_alt()
            &&& calls_begun(events) == values.filter_map(|value: JsonView| call_added(value))
        }),
    decreases values.len(),
{
    let said = |value: JsonView| delta_under(value, "response.output_text.delta"@);
    let thought = |value: JsonView| delta_under(value, "response.reasoning_summary_text.delta"@);
    let given = |value: JsonView| delta_under(value, "response.function_call_arguments.delta"@);
    let added = |value: JsonView| call_added(value);
    if values.len() == 0 {
        assert(calls_begun(Seq::<EventView>::empty()) =~= values.filter_map(added));
    } else {
        let rest = values.drop_last();
        let last = values.last();
        law_events_hand_out_what_they_bring(rest, state);
        let before = responses_run(rest, state);
        let more = responses_events(last, before.1);
        lemma_one_value(last, before.1);
        lemma_more_events(before.0, more);
        lemma_calls_concat(before.0, more);
        assert(values.map_values(said).drop_last() =~= rest.map_values(said));
        assert(values.map_values(thought).drop_last() =~= rest.map_values(thought));
        assert(values.map_values(given).drop_last() =~= rest.map_values(given));
        assert(values.map_values(said).last() == said(last));
        assert(values.map_values(thought).last() == thought(last));
        assert(values.map_values(given).last() == given(last));
        assert(calls_begun(before.0) + Seq::empty() =~= calls_begun(before.0));
    }
}

/// A function call ends with its item where one is open. A completed answer
/// tells its tokens, where any are counted, and behind them that it is complete,
/// unless it has. A failed or broken-off answer, and an error, are told in the
/// words of the API, or by their kind where it has none.
pub proof fn law_ends_are_told(value: JsonView, state: ResponsesView, item: JsonView)
    ensures
        is_kind(value, "response.output_item.done"@) && value.field("item"@) == Some(item)
            && is_kind(item, "function_call"@) && state.open_function_calls > 0
            ==> responses_events(value, state) == seq![EventView::ToolUseEnd] && responses_state(
            value,
            state,
        ).open_function_calls == state.open_function_calls - 1,
        is_kind(value, "response.output_item.done"@) && (state.open_function_calls == 0
            || value.field("item"@) is None) ==> responses_events(value, state).len() == 0,
        is_kind(value, "response.completed"@) ==> {
            let events = responses_events(value, state);
            &&& !state.done_emitted ==> events.len() > 0 && events.last() is Done
            &&& state.done_emitted ==> forall|i: int|
                0 <= i < events.len() ==> !(#[trigger] events[i] is Done)
            &&& responses_state(value, state).done_emitted
            &&& match value.field("response"@) {
                Some(response) => match response.field("usage"@) {
                    Some(usage) => if count(usage, "input_tokens"@) > 0 || count(
                        usage,
                        "output_tokens"@,
                    ) > 0 {
                        events.len() > 0 && events[0] == (EventView::Usage {
                            input_tokens: count(usage, "input_tokens"@),
                            output_tokens: count(usage, "output_tokens"@),
                            cache_hit_tokens: match usage.field("input_tokens_details"@) {
                                Some(details) => count(details, "cached_tokens"@),
                                None => 0,
                            },
                            cache_creation_tokens: 0,
                            reasoning_tokens: match usage.field("output_tokens_details"@) {
                                Some(details) => count(details, "reasoning_tokens"@),
                                None => 0,
                            },
                        })
                    } else {
                        events.len() <= 1
                    },
                    None => events.len() <= 1,
                },
                None => events.len() <= 1,
            }
        },
        is_kind(value, "response.failed"@) || is_kind(value, "response.incomplete"@) ==> {
            let text = match value.field("response"@) {
                Some(response) => match response.field("error"@) {
                    Some(error) => match error.field("message"@) {
                        Some(JsonView::Text(message)) => Some(message),
                        _ => None,
                    },
                    None => None,
                },
                None => None,
            };
            responses_events(value, state) == seq![
                EventView::Error(
                    match text {
                        Some(message) => message,
                        None => if is_kind(value, "response.failed"@) {
                            "response.failed"@
                        } else {
                            "response.incomplete"@
                        },
                    },
                ),
            ]
        },
        is_kind(value, "error"@) ==> responses_events(value, state) == seq![
            EventView::Error(
                match value.field("message"@) {
                    Some(JsonView::Text(message)) => message,
                    _ => "unknown Responses API error"@,
                },
            ),
        ],
{
    lemma_kinds_differ();
}

/// Events are handed out one by one, the oldest first, and none is lost.
pub proof fn law_no_response_event_is_lost(item: SseItem, state: ResponsesView)
    ensures
        responses_step(item, state) matches StepView::Yield(event) ==> seq![event]
            + responses_step_state(item, state).pending_events == responses_queue(item, state),
        responses_step(item, state) is Finish ==> responses_queue(item, state).len() == 0,
        responses_queue(item, state).len() >= state.pending_events.len(),
        responses_queue(item, state).take(state.pending_events.len() as int)
            == state.pending_events,
{
    let queue = responses_queue(item, state);
    if queue.len() > 0 {
        assert(seq![queue[0]] + queue.drop_first() =~= queue);
    }
    assert(queue.take(state.pending_events.len() as int) =~= state.pending_events);
}

proof fn lemma_item_names()
    ensures
        "type"@.len() == 4,
        "text"@.len() == 4,
        "role"@.len() == 4,
        "name"@.len() == 4,
        "content"@.len() == 7,
        "image_url"@.len() == 9,
        "call_id"@.len() == 7,
        "arguments"@.len() == 9,
        "output"@.len() == 6,
        "description"@.len() == 11,
        "parameters"@.len() == 10,
        "type"@ != "text"@,
        "type"@ != "role"@,
        "type"@ != "name"@,
        "user"@.len() == 4,
        "system"@.len() == 6,
        "assistant"@.len() == 9,
        "tool"@.len() == 4,
        "user"@ != "tool"@,
        ""@ == Seq::<char>::empty(),
{
    reveal_strlit("type");
    reveal_strlit("text");
    reveal_strlit("role");
    reveal_strlit("name");
    reveal_strlit("content");
    reveal_strlit("image_url");
    reveal_strlit("call_id");
    reveal_strlit("arguments");
    reveal_strlit("output");
    reveal_strlit("description");
    reveal_strlit("parameters");
    reveal_strlit("user");
    reveal_strlit("system");
    reveal_strlit("assistant");
    reveal_strlit("tool");
    reveal_strlit("");
    assert(""@ =~= Seq::<char>::empty());
    assert("type"@[0] == 't' && "role"@[0] == 'r' && "name"@[0] == 'n');
    assert("type"@[1] == 'y' && "text"@[1] == 'e');
    assert("user"@[0] == 'u' && "tool"@[0] == 't');
}

/// Whether the item is a message of the role with one part of text.
pub open spec fn is_text_item(
    item: JsonView,
    role: Seq<char>,
    kind: Seq<char>,
    text: Seq<char>,
) -> bool {
    &&& text_under(item, "type"@, "message"@)
    &&& text_under(item, "role"@, role)
    &&& match item.field("content"@) {
        Some(JsonView::Array(parts)) => parts.len() == 1 && text_under(parts[0], "type"@, kind)
            && text_under(parts[0], "text"@, text),
        _ => false,
    }
}

/// Whether the item is a call of a function.
pub open spec fn is_call_item(
    item: JsonView,
    id: Seq<char>,
    name: Seq<char>,
    arguments: Seq<char>,
) -> bool {
    &&& text_under(item, "type"@, "function_call"@)
    &&& text_under(item, "call_id"@, id)
    &&& text_under(item, "name"@, name)
    &&& text_under(item, "arguments"@, arguments)
}

/// Whether the item is what a function has answered.
pub open spec fn is_output_item(item: JsonView, id: Seq<char>, output: Seq<char>) -> bool {
    &&& text_under(item, "type"@, "function_call_output"@)
    &&& text_under(item, "call_id"@, id)
    &&& text_under(item, "output"@, output)
}

/// Each item holds what it is made of, under the names of the API.
pub proof fn law_items_hold_what_they_are_made_of(
    id: Seq<char>,
    name: Seq<char>,
    text: Seq<char>,
    role: Seq<char>,
)
    ensures
        is_call_item(call_item(id, name, text), id, name, text),
        is_output_item(output_item(id, text), id, text),
        is_text_item(
            message_item(role, seq![text_part("input_text"@, text)]),
            role,
            "input_text"@,
            text,
        ),
        text_under(input_image(text), "type"@, "input_image"@),
        text_under(input_image(text), "image_url"@, text),
{
    lemma_item_names();
}

/// A kept message of the user or the system is sent under that role, with its
/// text; one of the model as its text, where it has any, and its calls; one of a
/// tool as its answer, under the id of the call. What has no role is not sent.
pub proof fn law_kept_messages_are_sent(message: JsonView, text: Seq<char>)
    ensures
        text_under(message, "role"@, "user"@) && text_under(message, "content"@, text) ==> (
        kept_items(message).len() == 1 && is_text_item(
            kept_items(message)[0],
            "user"@,
            "input_text"@,
            text,
        )),
        text_under(message, "role"@, "system"@) && text_under(message, "content"@, text) ==> (
        kept_items(message).len() == 1 && is_text_item(
            kept_items(message)[0],
            "system"@,
            "input_text"@,
            text,
        )),
        text_under(message, "role"@, "assistant"@) && text_under(message, "content"@, text)
            && text.len() > 0 ==> (kept_items(message).len() > 0 && is_text_item(
            kept_items(message)[0],
            "assistant"@,
            "output_text"@,
            text,
        )),
        text_under(message, "role"@, "tool"@) && text_under(message, "content"@, text) && said_at(
            message,
            "tool_call_id"@,
        ).len() > 0 ==> (kept_items(message).len() == 1 && is_output_item(
            kept_items(message)[0],
            said_at(message, "tool_call_id"@),
            text,
        )),
        message.field("role"@) is None ==> kept_items(message).len() == 0,
{
    lemma_item_names();
}

/// Whether the part is the block of a kept message.
pub open spec fn is_part_of(part: JsonView, block: JsonView) -> bool {
    &&& is_kind(block, "text"@) ==> text_under(part, "type"@, "input_text"@) && text_under(
        part,
        "text"@,
        said_at(block, "text"@),
    )
    &&& is_kind(block, "image_url"@) ==> text_under(part, "type"@, "input_image"@) && text_under(
        part,
        "image_url"@,
        match block.field("image_url"@) {
            Some(inner) => said_at(inner, "url"@),
            None => Seq::empty(),
        },
    )
}

/// The parts of a kept message that are sent: its texts and its images.
pub open spec fn sent_parts(parts: Seq<JsonView>) -> Seq<JsonView> {
    parts.filter(|part: JsonView| is_kind(part, "text"@) || is_kind(part, "image_url"@))
}

/// Every text and every image of a kept message is sent, in order, and nothing
/// else of it.
pub proof fn law_kept_parts_are_sent(parts: Seq<JsonView>)
    ensures
        kept_parts(parts).len() == sent_parts(parts).len(),
        forall|i: int|
            #![trigger sent_parts(parts)[i]]
            0 <= i < sent_parts(parts).len() ==> is_part_of(
                kept_parts(parts)[i],
                sent_parts(parts)[i],
            ),
    decreases parts.len(),
{
    reveal(Seq::filter);
    lemma_item_names();
    if parts.len() > 0 {
        let rest = parts.drop_last();
        let last = parts.last();
        law_kept_parts_are_sent(rest);
        if is_kind(last, "text"@) || is_kind(last, "image_url"@) {
            assert(sent_parts(parts) == sent_parts(rest).push(last));
            assert forall|i: int|
                #![trigger sent_parts(parts)[i]]
                0 <= i < sent_parts(parts).len() implies is_part_of(
                kept_parts(parts)[i],
                sent_parts(parts)[i],
            ) by {
                if i < sent_parts(rest).len() {
                    assert(sent_parts(parts)[i] == sent_parts(rest)[i]);
                    assert(kept_parts(parts)[i] == kept_parts(rest)[i]);
                }
            }
        }
    }
}

/// A message of a conversation becomes the items of its role: of the user one
/// message, of the model its text, where it has any, and one item for each call;
/// of a tool its answer under the id of its call.
pub proof fn law_messages_become_items(message: MessageView)
    ensures
        ({
            let items = message_items(message);
            let text = blocks_text(message.content);
            let calls = block_call_items(message.content);
            &&& message.role == Role::User ==> items.len() == 1 && text_under(
                items[0],
                "type"@,
                "message"@,
            ) && text_under(items[0], "role"@, "user"@) && items[0].field("content"@) == Some(
                JsonView::Array(block_parts(message.content)),
            )
            &&& message.role == Role::Assistant && text.len() > 0 ==> items.len() == 1 + calls.len()
                && is_text_item(items[0], "assistant"@, "output_text"@, text) && items.skip(1)
                == calls
            &&& message.role == Role::Assistant && text.len() == 0 ==> items == calls
            &&& message.role == Role::Tool && message.content.len() > 0 ==> (match message.content[0] {
                BlockView::ToolResult { tool_use_id, content, .. } => items.len() == 1
                    && is_output_item(items[0], tool_use_id, content),
                _ => true,
            })
        }),
{
    lemma_item_names();
    let items = message_items(message);
    let calls = block_call_items(message.content);
    if message.role == Role::Assistant {
        if blocks_text(message.content).len() > 0 {
            assert(items.skip(1) =~= calls);
        } else {
            assert(items =~= calls);
        }
    }
}

/// Whether the part is the block as it is sent.
pub open spec fn is_input_part(part: JsonView, block: BlockView) -> bool {
    match block {
        BlockView::Text { text } => text_under(part, "type"@, "input_text"@) && text_under(
            part,
            "text"@,
            text,
        ),
        BlockView::Image { source } => text_under(part, "type"@, "input_image"@) && text_under(
            part,
            "image_url"@,
            match source {
                ImageView::Base64 { media_type, data } => "data:"@ + media_type + ";base64,"@
                    + data,
                ImageView::Url { url } => url,
            },
        ),
        _ => false,
    }
}

/// Every text and every image of the user is sent, in order, and every call of
/// the model with the text of its arguments.
pub proof fn law_blocks_become_parts(blocks: Seq<BlockView>)
    ensures
        block_parts(blocks).len() == said_blocks(blocks).len(),
        forall|i: int|
            #![trigger said_blocks(blocks)[i]]
            0 <= i < said_blocks(blocks).len() ==> is_input_part(
                block_parts(blocks)[i],
                said_blocks(blocks)[i],
            ),
        block_call_items(blocks) == blocks.filter(
            |block: BlockView| block is ToolUse,
        ).map_values(
            |block: BlockView|
                call_item(block->id, block->name, json_as_text(block->input)),
        ),
    decreases blocks.len(),
{
    reveal(Seq::filter);
    lemma_item_names();
    let used = |block: BlockView| block is ToolUse;
    let to_item = |block: BlockView| call_item(block->id, block->name, json_as_text(block->input));
    if blocks.len() > 0 {
        let rest = blocks.drop_last();
        let last = blocks.last();
        law_blocks_become_parts(rest);
        if last is Text || last is Image {
            assert(said_blocks(blocks) == said_blocks(rest).push(last));
            assert forall|i: int|
                #![trigger said_blocks(blocks)[i]]
                0 <= i < said_blocks(blocks).len() implies is_input_part(
                block_parts(blocks)[i],
                said_blocks(blocks)[i],
            ) by {
                if i < said_blocks(rest).len() {
                    assert(said_blocks(blocks)[i] == said_blocks(rest)[i]);
                    assert(block_parts(blocks)[i] == block_parts(rest)[i]);
                }
            }
        }
        if last is ToolUse {
            assert(rest.filter(used).push(last).map_values(to_item) =~= rest.filter(
                used,
            ).map_values(to_item).push(to_item(last)));
        }
    } else {
        assert(block_call_items(blocks) =~= blocks.filter(used).map_values(to_item));
    }
}

/// Messages that follow each other are sent one after the other, and none is
/// left out.
pub proof fn law_all_messages_are_sent(messages: Seq<MessageView>, kept: Seq<JsonView>)
    ensures
        all_message_items(messages) == messages.map_values(
            |message: MessageView| message_items(message),
        ).flatten_alt(),
        all_kept_items(kept) == kept.map_values(
            |message: JsonView| kept_items(message),
        ).flatten_alt(),
    decreases messages.len() + kept.len(),
{
    let to_items = |message: MessageView| message_items(message);
    let to_kept = |message: JsonView| kept_items(message);
    if messages.len() > 0 {
        law_all_messages_are_sent(messages.drop_last(), kept);
        assert(messages.map_values(to_items).drop_last() =~= messages.drop_last().map_values(
            to_items,
        ));
    } else if kept.len() > 0 {
        law_all_messages_are_sent(messages, kept.drop_last());
        assert(kept.map_values(to_kept).drop_last() =~= kept.drop_last().map_values(to_kept));
    }
}

/// Whether the document is the tool as it is sent.
pub open spec fn is_flat_function(json: JsonView, tool: ToolView) -> bool {
    &&& text_under(json, "type"@, "function"@)
    &&& text_under(json, "name"@, tool.name)
    &&& text_under(json, "description"@, tool.description)
    &&& json.field("parameters"@) == Some(tool.input_schema)
}

proof fn lemma_body_names()
    ensures
        "model"@.len() == 5,
        "stream"@.len() == 6,
        "store"@.len() == 5,
        "input"@.len() == 5,
        "tools"@.len() == 5,
        "instructions"@.len() == 12,
        "model"@ != "store"@,
        "model"@ != "input"@,
        "model"@ != "tools"@,
        "store"@ != "input"@,
        "store"@ != "tools"@,
        "input"@ != "tools"@,
{
    reveal_strlit("model");
    reveal_strlit("stream");
    reveal_strlit("store");
    reveal_strlit("input");
    reveal_strlit("tools");
    reveal_strlit("instructions");
    assert("model"@[0] == 'm' && "store"@[0] == 's' && "input"@[0] == 'i' && "tools"@[0] == 't');
}

/// A request names the model, asks for a stream and for nothing to be stored,
/// and holds all items, the system prompt as instructions and every tool, each
/// where there are any. What the parameters set stands in its place.
pub proof fn law_response_request_holds_everything(
    model: Seq<char>,
    params: Option<JsonView>,
    input: Seq<JsonView>,
    tools: Seq<ToolView>,
    system: Seq<char>,
    name: Seq<char>,
)
    ensures
        ({
            let body = responses_body(model, params, input, tools, system);
            &&& body.field("model"@) == Some(set_or(params, "model"@, JsonView::Text(model)))
            &&& body.field("stream"@) == Some(set_or(params, "stream"@, JsonView::Bool(true)))
            &&& body.field("store"@) == Some(set_or(params, "store"@, JsonView::Bool(false)))
            &&& body.field("input"@) == Some(set_or(params, "input"@, JsonView::Array(input)))
            &&& params is None ==> {
                &&& body.field("instructions"@) == if system.len() > 0 {
                    Some(JsonView::Text(system))
                } else {
                    None::<JsonView>
                }
                &&& tools.len() == 0 ==> body.field("tools"@) is None
                &&& tools.len() > 0 ==> match body.field("tools"@) {
                    Some(JsonView::Array(list)) => list.len() == tools.len() && forall|i: int|
                        #![trigger tools[i]]
                        0 <= i < tools.len() ==> is_flat_function(list[i], tools[i]),
                    _ => false,
                }
            }
            &&& params matches Some(set) ==> set.field(name) is Some ==> body.field(name)
                == set.field(name)
            &&& params matches Some(set) ==> set.field(name) is None ==> body.field(name)
                == responses_body(model, None, input, tools, system).field(name)
        }),
{
    lemma_item_names();
    lemma_body_names();
    let entries = tools.map_values(|tool: ToolView| flat_function_json(tool));
    assert forall|i: int| #![trigger tools[i]] 0 <= i < tools.len() implies is_flat_function(
        entries[i],
        tools[i],
    ) by {
        assert(entries[i] == flat_function_json(tools[i]));
    }
}

/// A stream that fails is told with its error, and nothing is taken from what
/// waits; one that was merely closed hands out what waits, and then it is over.
/// What opens a stream brings nothing. A message brings its events, and the mark
/// of the end that the answer is complete, unless that was told.
pub proof fn law_response_stream_tells_how_it_goes(item: SseItem, state: ResponsesView)
    ensures
        match item {
            SseItem::Open => responses_step(item, state) is Wait && responses_step_state(
                item,
                state,
            ) == state,
            SseItem::Failed(text) => {
                &&& !mentions(text@, "Stream ended"@) ==> responses_step(item, state)
                    == StepView::Fail("SSE stream error: "@ + text@) && responses_step_state(
                    item,
                    state,
                ) == state
                &&& mentions(text@, "Stream ended"@) ==> responses_step(item, state)
                    == responses_step(SseItem::Ended, state)
            },
            SseItem::Ended => {
                &&& !(responses_step(item, state) is Fail) && !(responses_step(item, state) is Wait)
                &&& responses_step(item, state) is Finish <==> state.pending_events.len() == 0
            },
            SseItem::Message(data) => {
                &&& !(responses_step(item, state) is Fail)
                &&& trim(data@) == "[DONE]"@ && !state.done_emitted ==> responses_queue(item, state)
                    == state.pending_events.push(EventView::Done)
                &&& trim(data@) == "[DONE]"@ && state.done_emitted ==> responses_queue(item, state)
                    == state.pending_events
                &&& trim(data@) == "[DONE]"@ ==> responses_step_state(item, state).done_emitted
                &&& trim(data@) != "[DONE]"@ ==> !(responses_step(item, state) is Finish)
                    && match text_as_json(data@) {
                    Some(value) => responses_queue(item, state) == state.pending_events
                        + responses_events(value, state) && responses_step_state(
                        item,
                        state,
                    ).done_emitted == responses_state(value, state).done_emitted
                        && responses_step_state(item, state).open_function_calls
                        == responses_state(value, state).open_function_calls,
                    None => responses_queue(item, state) == state.pending_events,
                }
            },
        },
{
    assert(state.pending_events + Seq::<EventView>::empty() =~= state.pending_events);
    assert(state.pending_events + seq![EventView::Done] =~= state.pending_events.push(
        EventView::Done,
    ));
}

/// The answer of a tool that is no text is sent as the text of its document, and
/// an answer that is missing as nothing; without the id of a call it is not sent.
pub proof fn law_any_answer_is_sent(message: JsonView)
    requires
        text_under(message, "role"@, "tool"@),
    ensures
        said_at(message, "tool_call_id"@).len() == 0 ==> kept_items(message).len() == 0,
        said_at(message, "tool_call_id"@).len() > 0 ==> kept_items(message).len() == 1
            && is_output_item(
            kept_items(message)[0],
            said_at(message, "tool_call_id"@),
            match message.field("content"@) {
                Some(JsonView::Text(text)) => text,
                Some(document) => json_as_text(document),
                None => Seq::empty(),
            },
        ),
{
    lemma_item_names();
}

} // verus!
