//! What a stream of Anthropic's Messages API comes to as a whole.
use crate::json::JsonView;
use crate::provider::anthropic::{
    anthropic_event, anthropic_state, anthropic_step, anthropic_step_state, AnthropicView,
};
use crate::provider::openai_compat::{reasoning_of, text_of};
use crate::provider::stream::{SseItem, StepView};
use crate::provider::usage::{anthropic_input, count};
use crate::types::EventView;
use vstd::prelude::*;
use vstd::string::*;

verus! {

/// The events that the messages of a stream come to, and the state behind them.
pub open spec fn read_through(values: Seq<JsonView>, state: AnthropicView) -> (
    Seq<EventView>,
    AnthropicView,
)
    decreases values.len(),
{
    if values.len() == 0 {
        (Seq::empty(), state)
    } else {
        let before = read_through(values.drop_last(), state);
        (
            match anthropic_event(values.last(), before.1) {
                Some(event) => before.0.push(event),
                None => before.0,
            },
            anthropic_state(values.last(), before.1),
        )
    }
}

/// Whether the document is one of the kind `kind`.
pub open spec fn is_kind(value: JsonView, kind: Seq<char>) -> bool {
    value.field("type"@) == Some(JsonView::Text(kind))
}

/// The text under `name` in a part of the message that stands under `part` and
/// is of the kind `kind`; nothing in any other message.
pub open spec fn piece(
    value: JsonView,
    message: Seq<char>,
    part: Seq<char>,
    kind: Seq<char>,
    name: Seq<char>,
) -> Seq<char> {
    match value.field(part) {
        Some(inner) => match inner.field(name) {
            Some(JsonView::Text(text)) => if is_kind(value, message) && is_kind(inner, kind) {
                text
            } else {
                Seq::empty()
            },
            _ => Seq::empty(),
        },
        None => Seq::empty(),
    }
}

/// The piece of the answer's text that a message of the stream brings.
pub open spec fn text_piece(value: JsonView) -> Seq<char> {
    piece(value, "content_block_delta"@, "delta"@, "text_delta"@, "text"@)
}

/// The piece of the reasoning that a message of the stream brings.
pub open spec fn thinking_piece(value: JsonView) -> Seq<char> {
    piece(value, "content_block_start"@, "content_block"@, "thinking"@, "thinking"@) + piece(
        value,
        "content_block_delta"@,
        "delta"@,
        "thinking_delta"@,
        "thinking"@,
    )
}

/// The piece of a tool call's arguments that a message of the stream brings.
pub open spec fn input_piece(value: JsonView) -> Seq<char> {
    piece(value, "content_block_delta"@, "delta"@, "input_json_delta"@, "partial_json"@)
}

/// The tool call that a message of the stream begins: its id and its name.
pub open spec fn call_begun(value: JsonView) -> Option<(Seq<char>, Seq<char>)> {
    match value.field("content_block"@) {
        Some(block) => match (block.field("id"@), block.field("name"@)) {
            (Some(JsonView::Text(id)), Some(JsonView::Text(name))) => if is_kind(
                value,
                "content_block_start"@,
            ) && is_kind(block, "tool_use"@) {
                Some((id, name))
            } else {
                None
            },
            _ => None,
        },
        None => None,
    }
}

/// The arguments that the events hand out.
pub open spec fn input_of(events: Seq<EventView>) -> Seq<char>
    decreases events.len(),
{
    if events.len() == 0 {
        Seq::empty()
    } else {
        input_of(events.drop_last()) + match events.last() {
            EventView::ToolInputDelta(s) => s,
            _ => Seq::empty(),
        }
    }
}

/// The tool calls that the events begin.
pub open spec fn calls_begun(events: Seq<EventView>) -> Seq<(Seq<char>, Seq<char>)> {
    events.filter_map(
        |event: EventView|
            match event {
                EventView::ToolUseStart { id, name } => Some((id, name)),
                _ => None,
            },
    )
}

proof fn lemma_kinds_differ()
    ensures
        "content_block_start"@ != "content_block_delta"@,
        "content_block_start"@ != "content_block_stop"@,
        "content_block_delta"@ != "content_block_stop"@,
        "message_start"@ != "message_delta"@,
        "message_start"@ != "message_stop"@,
        "message_delta"@ != "message_stop"@,
        "text_delta"@ != "input_json_delta"@,
        "text_delta"@ != "thinking_delta"@,
        "input_json_delta"@ != "thinking_delta"@,
        "tool_use"@ != "thinking"@,
        "content_block_start"@.len() == 19,
        "content_block_delta"@.len() == 19,
        "content_block_stop"@.len() == 18,
        "message_start"@.len() == 13,
        "message_delta"@.len() == 13,
        "message_stop"@.len() == 12,
        "error"@.len() == 5,
{
    reveal_strlit("content_block_start");
    reveal_strlit("content_block_delta");
    reveal_strlit("content_block_stop");
    reveal_strlit("message_start");
    reveal_strlit("message_delta");
    reveal_strlit("message_stop");
    reveal_strlit("error");
    reveal_strlit("text_delta");
    reveal_strlit("input_json_delta");
    reveal_strlit("thinking_delta");
    reveal_strlit("tool_use");
    reveal_strlit("thinking");
    assert("content_block_start"@.len() == 19);
    assert("content_block_delta"@.len() == 19);
    assert("content_block_stop"@.len() == 18);
    assert("message_start"@.len() == 13);
    assert("message_delta"@.len() == 13);
    assert("message_stop"@.len() == 12);
    assert("error"@.len() == 5);
    assert("text_delta"@.len() == 10);
    assert("input_json_delta"@.len() == 16);
    assert("thinking_delta"@.len() == 14);
    assert("content_block_start"@[14] != "content_block_delta"@[14]);
    assert("message_start"@[8] != "message_delta"@[8]);
    assert("tool_use"@[1] != "thinking"@[1]);
}

proof fn lemma_one_message(value: JsonView, state: AnthropicView)
    ensures
        ({
            let event = anthropic_event(value, state);
            let said = match event {
                Some(EventView::TextDelta(text)) => text,
                _ => Seq::empty(),
            };
            let thought = match event {
                Some(EventView::ReasoningDelta(text)) => text,
                _ => Seq::empty(),
            };
            let given = match event {
                Some(EventView::ToolInputDelta(text)) => text,
                _ => Seq::empty(),
            };
            &&& said == text_piece(value)
            &&& thought == thinking_piece(value)
            &&& given == input_piece(value)
            &&& match call_begun(value) {
                Some((id, name)) => event == Some(EventView::ToolUseStart { id, name }),
                None => !(event matches Some(EventView::ToolUseStart { .. })),
            }
        }),
{
    lemma_kinds_differ();
    assert(Seq::<char>::empty() + Seq::<char>::empty() =~= Seq::<char>::empty());
    let start = piece(value, "content_block_start"@, "content_block"@, "thinking"@, "thinking"@);
    let more = piece(value, "content_block_delta"@, "delta"@, "thinking_delta"@, "thinking"@);
    assert(start + Seq::<char>::empty() =~= start);
    assert(Seq::<char>::empty() + more =~= more);
    if start.len() == 0 {
        assert(start =~= Seq::<char>::empty());
    }
}

/// What a stream hands out is what its messages bring, each under its own name
/// and in their order: the text is the joined texts of the text deltas, the
/// reasoning is the joined texts of the thinking blocks, and so are the
/// arguments of tool calls. Every tool call that a message begins is begun once,
/// with its id and its name, and no other is.
pub proof fn law_stream_hands_out_what_it_brings(values: Seq<JsonView>, state: AnthropicView)
    ensures
        ({
            let events = read_through(values, state).0;
            &&& text_of(events) == values.map_values(|value: JsonView| text_piece(value)).flatten_alt()
            &&& reasoning_of(events) == values.map_values(
                |value: JsonView| thinking_piece(value),
            ).flatten_alt()
            &&& input_of(events) == values.map_values(
                |value: JsonView| input_piece(value),
            ).flatten_alt()
            &&& calls_begun(events) == values.filter_map(|value: JsonView| call_begun(value))
        }),
    decreases values.len(),
{
    let said = |value: JsonView| text_piece(value);
    let thought = |value: JsonView| thinking_piece(value);
    let given = |value: JsonView| input_piece(value);
    let begun = |value: JsonView| call_begun(value);
    let started = |event: EventView|
        match event {
            EventView::ToolUseStart { id, name } => Some((id, name)),
            _ => None,
        };
    if values.len() == 0 {
        assert(read_through(values, state).0.filter_map(started) =~= values.filter_map(begun));
    } else {
        let rest = values.drop_last();
        let last = values.last();
        law_stream_hands_out_what_it_brings(rest, state);
        let before = read_through(rest, state);
        let events = read_through(values, state).0;
        lemma_one_message(last, before.1);
        assert(values.map_values(said).drop_last() =~= rest.map_values(said));
        assert(values.map_values(thought).drop_last() =~= rest.map_values(thought));
        assert(values.map_values(given).drop_last() =~= rest.map_values(given));
        assert(values.map_values(said).last() == text_piece(last));
        assert(values.map_values(thought).last() == thinking_piece(last));
        assert(values.map_values(given).last() == input_piece(last));
        match anthropic_event(last, before.1) {
            Some(event) => {
                assert(events.drop_last() =~= before.0);
                assert(events.last() == event);
            },
            None => {
                assert(events == before.0);
                assert(text_of(events) + text_piece(last) =~= text_of(events));
                assert(reasoning_of(events) + thinking_piece(last) =~= reasoning_of(events));
                assert(input_of(events) + input_piece(last) =~= input_of(events));
            },
        }
    }
}

/// Whether a message of the stream ends a block.
pub open spec fn ends_block(value: JsonView) -> bool {
    is_kind(value, "content_block_stop"@)
}

/// A tool call is open exactly from the message that begins it to the next one
/// that ends a block, and what is known of it is what that message said. The
/// end of a block ends a tool call exactly where one is open, and a message that
/// ends no block ends none.
pub proof fn law_open_call_is_the_last_begun(
    values: Seq<JsonView>,
    state: AnthropicView,
    next: JsonView,
)
    ensures
        ({
            let end = read_through(values, state).1;
            &&& forall|i: int|
                0 <= i < values.len() && call_begun(#[trigger] values[i]) is Some && (forall|k: int|
                    i < k < values.len() ==> call_begun(#[trigger] values[k]) is None && !ends_block(
                        values[k],
                    )) ==> end.current_tool_id == Some((call_begun(values[i])->0).0)
                    && end.current_tool_name == Some((call_begun(values[i])->0).1)
            &&& forall|i: int|
                0 <= i < values.len() && ends_block(#[trigger] values[i]) && (forall|k: int|
                    i < k < values.len() ==> call_begun(#[trigger] values[k]) is None)
                    ==> end.current_tool_id is None
            &&& end.buffered_events == state.buffered_events
            &&& anthropic_event(next, end) == Some(EventView::ToolUseEnd) <==> ends_block(next)
                && end.current_tool_id is Some
        }),
    decreases values.len(),
{
    lemma_kinds_differ();
    if values.len() > 0 {
        let rest = values.drop_last();
        let last = values.last();
        law_open_call_is_the_last_begun(rest, state, next);
        let before = read_through(rest, state).1;
        let end = read_through(values, state).1;
        assert forall|i: int|
            0 <= i < values.len() && call_begun(#[trigger] values[i]) is Some && (forall|k: int|
                i < k < values.len() ==> call_begun(#[trigger] values[k]) is None && !ends_block(
                    values[k],
                )) implies end.current_tool_id == Some((call_begun(values[i])->0).0)
            && end.current_tool_name == Some((call_begun(values[i])->0).1) by {
            if i < rest.len() {
                assert(rest[i] == values[i]);
                assert(forall|k: int| i < k < rest.len() ==> rest[k] == values[k]);
                assert(values[values.len() - 1] == last);
            }
        }
        assert forall|i: int|
            0 <= i < values.len() && ends_block(#[trigger] values[i]) && (forall|k: int|
                i < k < values.len() ==> call_begun(#[trigger] values[k]) is None) implies
            end.current_tool_id is None by {
            if i < rest.len() {
                assert(rest[i] == values[i]);
                assert(forall|k: int| i < k < rest.len() ==> rest[k] == values[k]);
                assert(values[values.len() - 1] == last);
            }
        }
    }
}

/// The arguments that are kept of an open tool call are those that came since
/// it began.
pub proof fn law_open_call_keeps_its_arguments(
    start: JsonView,
    values: Seq<JsonView>,
    state: AnthropicView,
)
    requires
        call_begun(start) is Some,
        forall|i: int|
            0 <= i < values.len() ==> call_begun(#[trigger] values[i]) is None && !ends_block(
                values[i],
            ),
    ensures
        read_through(values, anthropic_state(start, state)).1.tool_input_buffer
            == values.map_values(|value: JsonView| input_piece(value)).flatten_alt(),
    decreases values.len(),
{
    lemma_kinds_differ();
    let given = |value: JsonView| input_piece(value);
    if values.len() > 0 {
        let rest = values.drop_last();
        let last = values.last();
        assert(forall|i: int| 0 <= i < rest.len() ==> rest[i] == values[i]);
        law_open_call_keeps_its_arguments(start, rest, state);
        let before = read_through(rest, anthropic_state(start, state)).1;
        lemma_one_message(last, before);
        assert(values[values.len() - 1] == last);
        assert(values.map_values(given).drop_last() =~= rest.map_values(given));
        assert(values.map_values(given).last() == input_piece(last));
        if input_piece(last).len() == 0 {
            assert(input_piece(last) =~= Seq::<char>::empty());
            assert(before.tool_input_buffer + input_piece(last) =~= before.tool_input_buffer);
        }
    }
}

/// The counts that the API tells, as an event: of an answer that has ended, any
/// that are not zero; of one that begins, those with a prompt.
pub open spec fn counts_told(value: JsonView) -> Option<JsonView> {
    if is_kind(value, "message_delta"@) {
        value.field("usage"@)
    } else if is_kind(value, "message_start"@) {
        match value.field("message"@) {
            Some(message) => message.field("usage"@),
            None => None,
        }
    } else {
        None
    }
}

/// Counts are told exactly by the messages that hold them, and with them the
/// whole prompt, what of it came from a cache and went into one, and the answer.
/// The stream is done where the API says so, and an error is told in its words.
pub proof fn law_counts_are_told(value: JsonView, state: AnthropicView)
    ensures
        ({
            let event = anthropic_event(value, state);
            &&& event matches Some(EventView::Usage {
                input_tokens,
                output_tokens,
                cache_hit_tokens,
                cache_creation_tokens,
                reasoning_tokens,
            }) ==> {
                &&& counts_told(value) is Some
                &&& input_tokens == anthropic_input(counts_told(value)->0)
                &&& output_tokens == count(counts_told(value)->0, "output_tokens"@)
                &&& cache_hit_tokens == count(counts_told(value)->0, "cache_read_input_tokens"@)
                &&& cache_creation_tokens == count(
                    counts_told(value)->0,
                    "cache_creation_input_tokens"@,
                )
                &&& reasoning_tokens == 0
            }
            &&& match counts_told(value) {
                Some(usage) => (event is Some && event->0 is Usage) == (anthropic_input(usage) > 0 || (
                is_kind(value, "message_delta"@) && count(usage, "output_tokens"@) > 0)),
                None => !(event is Some && event->0 is Usage),
            }
            &&& is_kind(value, "message_stop"@) <==> event == Some(EventView::Done)
            &&& is_kind(value, "error"@) <==> event is Some && event->0 is Error
            &&& event matches Some(EventView::Error(text)) ==> text == match value.field("error"@) {
                Some(error) => match error.field("message"@) {
                    Some(JsonView::Text(message)) => message,
                    _ => "Unknown error"@,
                },
                None => "Unknown error"@,
            }
        }),
{
    lemma_kinds_differ();
}

/// A message of the stream that is no JSON is passed over, and one that is
/// leads to its event at once. At the end, and after an error, what is still
/// held back comes first; then the stream is over, with the error where it is
/// one that is not the end of the stream.
pub proof fn law_steps_follow_the_events(data: String, text: String, state: AnthropicView)
    ensures
        crate::json::text_as_json(data@) is None ==> anthropic_step(SseItem::Message(data), state)
            == StepView::Wait && anthropic_step_state(SseItem::Message(data), state) == state,
        crate::json::text_as_json(data@) matches Some(value) ==> match anthropic_event(
            value,
            state,
        ) {
            Some(event) => anthropic_step(SseItem::Message(data), state) == StepView::Yield(event),
            None => anthropic_step(SseItem::Message(data), state) == StepView::Wait,
        },
        state.buffered_events.len() > 0 ==> {
            &&& anthropic_step(SseItem::Ended, state) == StepView::Yield(state.buffered_events.last())
            &&& anthropic_step(SseItem::Failed(text), state) == StepView::Yield(
                state.buffered_events.last(),
            )
            &&& anthropic_step_state(SseItem::Ended, state).buffered_events
                == state.buffered_events.drop_last()
            &&& anthropic_step_state(SseItem::Failed(text), state).buffered_events
                == state.buffered_events.drop_last()
        },
        state.buffered_events.len() == 0 ==> {
            &&& anthropic_step(SseItem::Ended, state) == StepView::Finish
            &&& anthropic_step(SseItem::Failed(text), state) == if crate::text::mentions(
                text@,
                "Stream ended"@,
            ) {
                StepView::Finish
            } else {
                StepView::Fail("SSE error: "@ + text@)
            }
        },
        anthropic_step(SseItem::Open, state) == StepView::Wait,
        anthropic_step_state(SseItem::Open, state) == state,
{
}

} // verus!
