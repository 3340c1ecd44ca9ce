//! What a stream of an OpenAI-compatible API comes to as a whole.
use crate::json::{json_as_text, text_as_json, JsonView};
use crate::provider::anthropic_events::{calls_begun, input_of};
use crate::provider::openai_compat::{
    argument_text, blank_call, call_ends, call_index, calls_step, choice_step, choices_step,
    chunk_events, chunk_state, chunk_step, content_step, extended_call, finish_step, flushed,
    grown, law_plain_text_passes, lemma_events_concat, openai_step, openai_step_state, piece_step,
    pieces_step, queued, reasoning_of, reasoning_step, scan_think, split_scan, starts_now, stretch,
    text_of, think_tag, usage_events, lemma_tag_len, ChunkStep, OpenAiView,
};
use crate::provider::stream::{SseItem, StepView};
use crate::provider::usage::{cache_hits, count};
use crate::text::{after, begins, lemma_find_is, lemma_find_none, mentions, occurs_at, trim};
use crate::types::EventView;
use vstd::prelude::*;
use vstd::string::*;

verus! {

/// The text under `name` in the delta of a choice.
pub open spec fn delta_text(choice: JsonView, name: Seq<char>) -> Seq<char> {
    match choice.field("delta"@) {
        Some(delta) => match delta.field(name) {
            Some(JsonView::Text(text)) => text,
            _ => Seq::empty(),
        },
        None => Seq::empty(),
    }
}

/// The pieces of tool calls in the delta of a choice.
pub open spec fn delta_pieces(choice: JsonView) -> Seq<JsonView> {
    match choice.field("delta"@) {
        Some(delta) => match delta.field("tool_calls"@) {
            Some(JsonView::Array(pieces)) => pieces,
            _ => Seq::empty(),
        },
        None => Seq::empty(),
    }
}

/// The arguments that a piece of a tool call brings: a text as it is, an object
/// as its text.
pub open spec fn brought(piece: JsonView) -> Seq<char> {
    match piece.field("function"@) {
        Some(function) => match function.field("arguments"@) {
            Some(JsonView::Text(text)) => text,
            Some(JsonView::Object(fields)) => json_as_text(JsonView::Object(fields)),
            _ => Seq::empty(),
        },
        None => Seq::empty(),
    }
}

/// The arguments that a list of pieces brings.
pub open spec fn all_brought(pieces: Seq<JsonView>) -> Seq<char> {
    pieces.map_values(|piece: JsonView| brought(piece)).flatten_alt()
}

/// Whether the state is between think blocks, with nothing held back.
pub open spec fn is_plain(state: OpenAiView) -> bool {
    !state.in_think_block && state.tag_buffer.len() == 0 && !state.pending_strip_newlines
}

/// Whether the text holds no angle, with which a tag could begin.
pub open spec fn no_angle(text: Seq<char>) -> bool {
    forall|i: int| 0 <= i < text.len() ==> #[trigger] text[i] != '<'
}

proof fn lemma_input_concat(a: Seq<EventView>, b: Seq<EventView>)
    ensures
        input_of(a + b) == input_of(a) + input_of(b),
    decreases b.len(),
{
    if b.len() == 0 {
        assert(a + b =~= a);
        assert(input_of(a) + input_of(b) =~= input_of(a));
    } else {
        lemma_input_concat(a, b.drop_last());
        assert((a + b).drop_last() =~= a + b.drop_last());
        assert((a + b).last() == b.last());
        assert(input_of(a + b) =~= input_of(a) + input_of(b));
    }
}

/// One event is the text, the reasoning or the arguments that it hands out.
pub proof fn lemma_one_event(event: EventView)
    ensures
        text_of(seq![event]) == match event {
            EventView::TextDelta(text) => text,
            _ => Seq::empty(),
        },
        reasoning_of(seq![event]) == match event {
            EventView::ReasoningDelta(text) => text,
            _ => Seq::empty(),
        },
        input_of(seq![event]) == match event {
            EventView::ToolInputDelta(text) => text,
            _ => Seq::empty(),
        },
{
    let one = seq![event];
    reveal_with_fuel(text_of, 2);
    reveal_with_fuel(reasoning_of, 2);
    reveal_with_fuel(input_of, 2);
    assert(one.drop_last() =~= Seq::<EventView>::empty());
    assert(text_of(one) =~= match event {
        EventView::TextDelta(text) => text,
        _ => Seq::empty(),
    });
    assert(reasoning_of(one) =~= match event {
        EventView::ReasoningDelta(text) => text,
        _ => Seq::empty(),
    });
    assert(input_of(one) =~= match event {
        EventView::ToolInputDelta(text) => text,
        _ => Seq::empty(),
    });
}

/// What events have handed out, and what more of them hand out.
pub proof fn lemma_more_events(before: Seq<EventView>, more: Seq<EventView>)
    ensures
        text_of(before + more) == text_of(before) + text_of(more),
        reasoning_of(before + more) == reasoning_of(before) + reasoning_of(more),
        input_of(before + more) == input_of(before) + input_of(more),
        text_of(before) + Seq::<char>::empty() == text_of(before),
        reasoning_of(before) + Seq::<char>::empty() == reasoning_of(before),
        input_of(before) + Seq::<char>::empty() == input_of(before),
{
    lemma_events_concat(before, more);
    lemma_input_concat(before, more);
    assert(text_of(before) + Seq::<char>::empty() =~= text_of(before));
    assert(reasoning_of(before) + Seq::<char>::empty() =~= reasoning_of(before));
    assert(input_of(before) + Seq::<char>::empty() =~= input_of(before));
}

proof fn lemma_piece(piece: JsonView, step: ChunkStep)
    ensures
        ({
            let end = piece_step(piece, step);
            &&& text_of(end.events) == text_of(step.events)
            &&& reasoning_of(end.events) == reasoning_of(step.events)
            &&& input_of(end.events) == input_of(step.events) + brought(piece)
            &&& is_plain(end.state) == is_plain(step.state)
        }),
{
    let index = call_index(piece) as int;
    let calls = grown(step.state.tool_calls, index + 1);
    let call = extended_call(calls[index], piece);
    let starts = crate::provider::openai_compat::start_events(call);
    let given = crate::provider::openai_compat::argument_events(piece);
    lemma_more_events(step.events, starts);
    lemma_more_events(step.events + starts, given);
    assert(text_of(Seq::<EventView>::empty()) =~= Seq::<char>::empty());
    assert(reasoning_of(Seq::<EventView>::empty()) =~= Seq::<char>::empty());
    assert(input_of(Seq::<EventView>::empty()) =~= Seq::<char>::empty());
    if starts_now(call) {
        lemma_one_event(EventView::ToolUseStart { id: call.id, name: call.name });
    }
    if let Some(more) = argument_text(piece) {
        lemma_one_event(EventView::ToolInputDelta(more));
    }
}

proof fn lemma_pieces(pieces: Seq<JsonView>, step: ChunkStep)
    ensures
        ({
            let end = pieces_step(pieces, step);
            &&& text_of(end.events) == text_of(step.events)
            &&& reasoning_of(end.events) == reasoning_of(step.events)
            &&& input_of(end.events) == input_of(step.events) + all_brought(pieces)
            &&& is_plain(end.state) == is_plain(step.state)
        }),
    decreases pieces.len(),
{
    let bring = |piece: JsonView| brought(piece);
    if pieces.len() == 0 {
        assert(input_of(step.events) + all_brought(pieces) =~= input_of(step.events));
    } else {
        let rest = pieces.drop_last();
        lemma_pieces(rest, step);
        lemma_piece(pieces.last(), pieces_step(rest, step));
        assert(pieces.map_values(bring).drop_last() =~= rest.map_values(bring));
        assert(pieces.map_values(bring).last() == brought(pieces.last()));
        assert(input_of(step.events) + (all_brought(rest) + brought(pieces.last()))
            =~= input_of(step.events) + all_brought(rest) + brought(pieces.last()));
    }
}

proof fn lemma_ends(n: nat)
    ensures
        text_of(call_ends(n)).len() == 0,
        reasoning_of(call_ends(n)).len() == 0,
        input_of(call_ends(n)).len() == 0,
    decreases n,
{
    if n > 0 {
        lemma_ends((n - 1) as nat);
        assert(call_ends(n).drop_last() =~= call_ends((n - 1) as nat));
    }
}

proof fn lemma_choice(choice: JsonView, step: ChunkStep)
    requires
        is_plain(step.state),
        no_angle(delta_text(choice, "content"@)),
    ensures
        ({
            let end = choice_step(choice, step);
            &&& text_of(end.events) == text_of(step.events) + delta_text(choice, "content"@)
            &&& reasoning_of(end.events) == reasoning_of(step.events) + delta_text(
                choice,
                "reasoning_content"@,
            )
            &&& input_of(end.events) == input_of(step.events) + all_brought(delta_pieces(choice))
            &&& is_plain(end.state)
        }),
{
    let none = Seq::<char>::empty();
    let content = delta_text(choice, "content"@);
    let reasoning = delta_text(choice, "reasoning_content"@);
    lemma_more_events(step.events, Seq::empty());
    assert(all_brought(Seq::empty()) =~= none);
    if let Some(delta) = choice.field("delta"@) {
        let first = content_step(delta, step);
        if content.len() > 0 {
            law_plain_text_passes(step.state, content);
            let events = stretch(false, content);
            lemma_more_events(step.events, events);
            lemma_one_event(EventView::TextDelta(content));
        } else {
            assert(content =~= none);
        }
        assert(text_of(first.events) == text_of(step.events) + content);
        assert(reasoning_of(first.events) == reasoning_of(step.events));
        assert(input_of(first.events) == input_of(step.events));
        assert(is_plain(first.state));
        let second = reasoning_step(delta, first);
        lemma_more_events(first.events, seq![EventView::ReasoningDelta(reasoning)]);
        lemma_one_event(EventView::ReasoningDelta(reasoning));
        assert(first.events.push(EventView::ReasoningDelta(reasoning)) =~= first.events + seq![
            EventView::ReasoningDelta(reasoning),
        ]);
        if reasoning.len() == 0 {
            assert(reasoning =~= none);
        }
        assert(reasoning_of(second.events) == reasoning_of(step.events) + reasoning);
        assert(text_of(second.events) == text_of(first.events));
        let third = calls_step(delta, second);
        lemma_more_events(second.events, Seq::empty());
        lemma_pieces(delta_pieces(choice), second);
        assert(input_of(third.events) == input_of(step.events) + all_brought(delta_pieces(choice)));
        let n = third.state.tool_calls.len();
        lemma_ends(n);
        lemma_more_events(third.events, call_ends(n));
        assert(text_of(call_ends(n)) =~= none);
        assert(reasoning_of(call_ends(n)) =~= none);
        assert(input_of(call_ends(n)) =~= none);
    }
}

/// What a function of each choice adds up to.
pub open spec fn of_choices(choices: Seq<JsonView>, f: spec_fn(JsonView) -> Seq<char>) -> Seq<char> {
    choices.map_values(f).flatten_alt()
}

/// The text of the choices.
pub open spec fn texts_of_choices(choices: Seq<JsonView>) -> Seq<char> {
    of_choices(choices, |choice: JsonView| delta_text(choice, "content"@))
}

/// The reasoning of the choices.
pub open spec fn reasoning_of_choices(choices: Seq<JsonView>) -> Seq<char> {
    of_choices(choices, |choice: JsonView| delta_text(choice, "reasoning_content"@))
}

/// The arguments of the choices' tool calls.
pub open spec fn input_of_choices(choices: Seq<JsonView>) -> Seq<char> {
    of_choices(choices, |choice: JsonView| all_brought(delta_pieces(choice)))
}

/// Whether the texts of the choices hold no angle.
pub open spec fn no_angles(choices: Seq<JsonView>) -> bool {
    forall|i: int|
        0 <= i < choices.len() ==> no_angle(delta_text(#[trigger] choices[i], "content"@))
}

proof fn lemma_of_choices(choices: Seq<JsonView>, f: spec_fn(JsonView) -> Seq<char>)
    requires
        choices.len() > 0,
    ensures
        of_choices(choices, f) == of_choices(choices.drop_last(), f) + f(choices.last()),
{
    assert(choices.map_values(f).drop_last() =~= choices.drop_last().map_values(f));
    assert(choices.map_values(f).last() == f(choices.last()));
}

proof fn lemma_choices(choices: Seq<JsonView>, step: ChunkStep)
    requires
        is_plain(step.state),
        no_angles(choices),
    ensures
        ({
            let end = choices_step(choices, step);
            &&& text_of(end.events) == text_of(step.events) + texts_of_choices(choices)
            &&& reasoning_of(end.events) == reasoning_of(step.events) + reasoning_of_choices(
                choices,
            )
            &&& input_of(end.events) == input_of(step.events) + input_of_choices(choices)
            &&& is_plain(end.state)
        }),
    decreases choices.len(),
{
    let said = |choice: JsonView| delta_text(choice, "content"@);
    let thought = |choice: JsonView| delta_text(choice, "reasoning_content"@);
    let given = |choice: JsonView| all_brought(delta_pieces(choice));
    if choices.len() == 0 {
        lemma_more_events(step.events, Seq::empty());
        assert(of_choices(choices, said) =~= Seq::<char>::empty());
        assert(of_choices(choices, thought) =~= Seq::<char>::empty());
        assert(of_choices(choices, given) =~= Seq::<char>::empty());
    } else {
        let rest = choices.drop_last();
        let last = choices.last();
        assert(forall|i: int| 0 <= i < rest.len() ==> rest[i] == choices[i]);
        assert(choices[choices.len() - 1] == last);
        lemma_choices(rest, step);
        lemma_choice(last, choices_step(rest, step));
        lemma_of_choices(choices, said);
        lemma_of_choices(choices, thought);
        lemma_of_choices(choices, given);
        assert(text_of(step.events) + (of_choices(rest, said) + said(last)) =~= text_of(step.events)
            + of_choices(rest, said) + said(last));
        assert(reasoning_of(step.events) + (of_choices(rest, thought) + thought(last))
            =~= reasoning_of(step.events) + of_choices(rest, thought) + thought(last));
        assert(input_of(step.events) + (of_choices(rest, given) + given(last)) =~= input_of(
            step.events,
        ) + of_choices(rest, given) + given(last));
    }
}

/// The choices of a chunk.
pub open spec fn choices_of(value: JsonView) -> Seq<JsonView> {
    match value.field("choices"@) {
        Some(JsonView::Array(choices)) => choices,
        _ => Seq::empty(),
    }
}

/// The events that the chunks of a stream come to, and the state behind them.
pub open spec fn read_chunks(values: Seq<JsonView>, state: OpenAiView) -> (
    Seq<EventView>,
    OpenAiView,
)
    decreases values.len(),
{
    if values.len() == 0 {
        (Seq::empty(), state)
    } else {
        let before = read_chunks(values.drop_last(), state);
        (
            match chunk_events(values.last(), before.1) {
                Some(events) => before.0 + events,
                None => before.0,
            },
            chunk_state(values.last(), before.1),
        )
    }
}

proof fn lemma_usage(value: JsonView)
    ensures
        text_of(usage_events(value)) == Seq::<char>::empty(),
        reasoning_of(usage_events(value)) == Seq::<char>::empty(),
        input_of(usage_events(value)) == Seq::<char>::empty(),
{
    let events = usage_events(value);
    if events.len() == 1 {
        lemma_one_event(events[0]);
        assert(events =~= seq![events[0]]);
    } else {
        assert(events =~= Seq::<EventView>::empty());
    }
}

/// What a stream hands out is what its chunks bring, each under its own name and
/// in their order: the text is the joined contents, the reasoning is the joined
/// reasoning, the arguments of tool calls are the joined arguments. The contents
/// hold no angle here; with think tags in them see how those split.
pub proof fn law_chunks_hand_out_what_they_bring(values: Seq<JsonView>, state: OpenAiView)
    requires
        is_plain(state),
        forall|i: int| 0 <= i < values.len() ==> no_angles(choices_of(#[trigger] values[i])),
    ensures
        ({
            let events = read_chunks(values, state).0;
            &&& text_of(events) == values.map_values(
                |value: JsonView| texts_of_choices(choices_of(value)),
            ).flatten_alt()
            &&& reasoning_of(events) == values.map_values(
                |value: JsonView| reasoning_of_choices(choices_of(value)),
            ).flatten_alt()
            &&& input_of(events) == values.map_values(
                |value: JsonView| input_of_choices(choices_of(value)),
            ).flatten_alt()
            &&& is_plain(read_chunks(values, state).1)
        }),
    decreases values.len(),
{
    let said = |value: JsonView| texts_of_choices(choices_of(value));
    let thought = |value: JsonView| reasoning_of_choices(choices_of(value));
    let given = |value: JsonView| input_of_choices(choices_of(value));
    if values.len() > 0 {
        let rest = values.drop_last();
        let last = values.last();
        assert(forall|i: int| 0 <= i < rest.len() ==> rest[i] == values[i]);
        assert(values[values.len() - 1] == last);
        law_chunks_hand_out_what_they_bring(rest, state);
        let before = read_chunks(rest, state);
        lemma_of_choices(values, said);
        lemma_of_choices(values, thought);
        lemma_of_choices(values, given);
        let choices = choices_of(last);
        let empty = ChunkStep { events: Seq::empty(), state: before.1 };
        lemma_choices(choices, empty);
        let step = choices_step(choices, empty);
        let none = Seq::<char>::empty();
        assert(none + texts_of_choices(choices) =~= texts_of_choices(choices));
        assert(none + reasoning_of_choices(choices) =~= reasoning_of_choices(choices));
        assert(none + input_of_choices(choices) =~= input_of_choices(choices));
        lemma_usage(last);
        lemma_more_events(step.events, usage_events(last));
        let more = step.events + usage_events(last);
        lemma_more_events(before.0, more);
        if last.array_field("choices"@) is None {
            assert(choices =~= Seq::<JsonView>::empty());
        } else {
            assert(last.array_field("choices"@) == Some(choices));
            assert(chunk_step(last, choices, before.1).events == more);
            if more.len() == 0 {
                assert(more =~= Seq::<EventView>::empty());
            }
        }
    }
}

/// The pieces that belong to the tool call at the place `k`.
pub open spec fn pieces_of(pieces: Seq<JsonView>, k: int) -> Seq<JsonView> {
    pieces.filter(|piece: JsonView| call_index(piece) == k)
}

/// The text, where the document is one.
pub open spec fn text_told(json: Option<JsonView>) -> Option<Seq<char>> {
    match json {
        Some(JsonView::Text(text)) => Some(text),
        _ => None,
    }
}

/// The id that a piece of a tool call tells.
pub open spec fn id_told(piece: JsonView) -> Option<Seq<char>> {
    text_told(piece.field("id"@))
}

/// The name that a piece of a tool call tells.
pub open spec fn name_told(piece: JsonView) -> Option<Seq<char>> {
    match piece.field("function"@) {
        Some(function) => text_told(function.field("name"@)),
        None => None,
    }
}

/// The last of the texts, or the one before them all.
pub open spec fn last_or(texts: Seq<Seq<char>>, before: Seq<char>) -> Seq<char> {
    if texts.len() > 0 {
        texts.last()
    } else {
        before
    }
}

/// A tool call is put together of the pieces that belong to it, and of no
/// others: its arguments are theirs, joined in order, and its id and its name
/// are those told last.
pub proof fn law_call_is_put_together(pieces: Seq<JsonView>, step: ChunkStep, k: int)
    requires
        0 <= k < pieces_step(pieces, step).state.tool_calls.len(),
    ensures
        ({
            let mine = pieces_of(pieces, k);
            let call = pieces_step(pieces, step).state.tool_calls[k];
            let before = if k < step.state.tool_calls.len() {
                step.state.tool_calls[k]
            } else {
                blank_call()
            };
            &&& call.arguments == before.arguments + all_brought(mine)
            &&& call.id == last_or(mine.filter_map(|piece: JsonView| id_told(piece)), before.id)
            &&& call.name == last_or(
                mine.filter_map(|piece: JsonView| name_told(piece)),
                before.name,
            )
        }),
    decreases pieces.len(),
{
    reveal(Seq::filter);
    let bring = |piece: JsonView| brought(piece);
    let ids = |piece: JsonView| id_told(piece);
    let names = |piece: JsonView| name_told(piece);
    let own = |piece: JsonView| call_index(piece) == k;
    let mine = pieces_of(pieces, k);
    let before = if k < step.state.tool_calls.len() {
        step.state.tool_calls[k]
    } else {
        blank_call()
    };
    if pieces.len() == 0 {
        assert(mine =~= Seq::<JsonView>::empty());
        assert(before.arguments + all_brought(mine) =~= before.arguments);
        assert(mine.filter_map(ids).len() == 0);
        assert(mine.filter_map(names).len() == 0);
    } else {
        let rest = pieces.drop_last();
        let piece = pieces.last();
        let middle = pieces_step(rest, step);
        let index = call_index(piece) as int;
        let calls = grown(middle.state.tool_calls, index + 1);
        let earlier = pieces_of(rest, k);
        lemma_not_yet(rest, step, k);
        if k < middle.state.tool_calls.len() {
            law_call_is_put_together(rest, step, k);
            assert(calls[k] == middle.state.tool_calls[k]);
        } else {
            assert(calls[k] == blank_call());
            assert(earlier.len() == 0);
            assert(earlier =~= Seq::<JsonView>::empty());
            assert(before.arguments + all_brought(earlier) =~= before.arguments);
            assert(earlier.filter_map(ids).len() == 0);
            assert(earlier.filter_map(names).len() == 0);
        }
        if index == k {
            assert(mine == earlier.push(piece));
            assert(mine.drop_last() =~= earlier);
            assert(mine.map_values(bring).drop_last() =~= earlier.map_values(bring));
            assert(mine.map_values(bring).last() == brought(piece));
            assert(before.arguments + (all_brought(earlier) + brought(piece)) =~= before.arguments
                + all_brought(earlier) + brought(piece));
            if argument_text(piece) is None {
                assert(before.arguments + all_brought(earlier) + brought(piece)
                    =~= before.arguments + all_brought(earlier));
            }
            assert(mine.filter_map(ids) == match id_told(piece) {
                Some(id) => earlier.filter_map(ids) + seq![id],
                None => earlier.filter_map(ids),
            });
            assert(mine.filter_map(names) == match name_told(piece) {
                Some(name) => earlier.filter_map(names) + seq![name],
                None => earlier.filter_map(names),
            });
        } else {
            assert(mine == earlier);
        }
    }
}

proof fn lemma_not_yet(pieces: Seq<JsonView>, step: ChunkStep, k: int)
    ensures
        k >= pieces_step(pieces, step).state.tool_calls.len() ==> pieces_of(pieces, k).len() == 0
            && k >= step.state.tool_calls.len(),
    decreases pieces.len(),
{
    reveal(Seq::filter);
    if pieces.len() > 0 {
        lemma_not_yet(pieces.drop_last(), step, k);
    }
}

/// A tool call is begun once: as soon as a piece has brought the last of its id
/// and its name, with both as they are then, and never again. Each piece of
/// arguments is handed out as it comes.
pub proof fn law_call_begins_once(piece: JsonView, step: ChunkStep)
    ensures
        ({
            let k = call_index(piece) as int;
            let end = piece_step(piece, step);
            let call = end.state.tool_calls[k];
            let was_begun = k < step.state.tool_calls.len() && step.state.tool_calls[k].started;
            &&& call.started <==> was_begun || (call.id.len() > 0 && call.name.len() > 0)
            &&& calls_begun(end.events) == if !was_begun && call.started {
                calls_begun(step.events).push((call.id, call.name))
            } else {
                calls_begun(step.events)
            }
            &&& forall|i: int|
                0 <= i < step.state.tool_calls.len() && i != k ==> end.state.tool_calls[i]
                    == #[trigger] step.state.tool_calls[i]
        }),
{
    let started = |event: EventView|
        match event {
            EventView::ToolUseStart { id, name } => Some((id, name)),
            _ => None,
        };
    let k = call_index(piece) as int;
    let calls = grown(step.state.tool_calls, k + 1);
    let call = extended_call(calls[k], piece);
    let starts = crate::provider::openai_compat::start_events(call);
    let given = crate::provider::openai_compat::argument_events(piece);
    let middle = step.events + starts;
    let end = middle + given;
    assert(piece_step(piece, step).events == end);
    if starts_now(call) {
        assert(middle.drop_last() =~= step.events);
        assert(middle.filter_map(started) == step.events.filter_map(started) + seq![
            (call.id, call.name),
        ]);
        assert(middle.filter_map(started) =~= calls_begun(step.events).push((call.id, call.name)));
    } else {
        assert(middle =~= step.events);
    }
    if argument_text(piece) is Some {
        assert(end.drop_last() =~= middle);
    } else {
        assert(end =~= middle);
    }
}

/// Where a choice finishes the answer, every tool call that was put together is
/// ended, each once, and none is left; where it does not, none is ended.
pub proof fn law_finishing_ends_every_call(choice: JsonView, step: ChunkStep)
    ensures
        ({
            let reason = text_told(choice.field("finish_reason"@));
            let end = finish_step(choice, step);
            &&& reason == Some("stop"@) || reason == Some("tool_calls"@) ==> {
                &&& end.state.tool_calls.len() == 0
                &&& end.events.len() == step.events.len() + step.state.tool_calls.len()
                &&& end.events.take(step.events.len() as int) == step.events
                &&& forall|i: int|
                    step.events.len() <= i < end.events.len() ==> #[trigger] end.events[i]
                        is ToolUseEnd
            }
            &&& !(reason == Some("stop"@) || reason == Some("tool_calls"@)) ==> end == step
        }),
{
    let end = finish_step(choice, step);
    assert(end.events.take(step.events.len() as int) =~= step.events);
}

/// The tokens are told with the prompt's count, what of it came from a cache,
/// and the answer's count, wherever one of both is not zero; nothing else is
/// counted here.
pub proof fn law_chunk_tells_the_tokens(value: JsonView, usage: JsonView)
    ensures
        value.field("usage"@) is None ==> usage_events(value).len() == 0,
        value.field("usage"@) == Some(usage) ==> {
            let input = count(usage, "prompt_tokens"@);
            let output = count(usage, "completion_tokens"@);
            &&& input == 0 && output == 0 ==> usage_events(value).len() == 0
            &&& input > 0 || output > 0 ==> usage_events(value) == seq![
                EventView::Usage {
                    input_tokens: input,
                    output_tokens: output,
                    cache_hit_tokens: cache_hits(usage),
                    cache_creation_tokens: 0,
                    reasoning_tokens: 0,
                },
            ]
        },
{
}

/// Events are handed out one by one, the oldest first, and none is lost: what is
/// handed out and what then waits is what waited before, and behind it what the
/// stream has brought. The mark of the end brings what was held back, and that
/// the answer is complete.
pub proof fn law_no_event_is_lost(item: SseItem, state: OpenAiView, data: String)
    ensures
        openai_step(item, state) matches StepView::Yield(event) ==> seq![event]
            + openai_step_state(item, state).pending_events == queued(item, state),
        openai_step(item, state) is Finish ==> queued(item, state).len() == 0,
        !(item is Failed) && openai_step(item, state) is Wait && !(item is Open) ==> queued(
            item,
            state,
        ).len() == 0,
        data@ == "[DONE]"@ && crate::text::trim(data@) == data@ ==> queued(
            SseItem::Message(data),
            state,
        ) == state.pending_events + flushed(state) + seq![EventView::Done],
        queued(SseItem::Ended, state) == state.pending_events + flushed(state),
        queued(item, state).len() >= state.pending_events.len(),
        queued(item, state).take(state.pending_events.len() as int) == state.pending_events,
        flushed(state) == if state.tag_buffer.len() == 0 {
            Seq::empty()
        } else if state.in_think_block {
            seq![EventView::ReasoningDelta(state.tag_buffer)]
        } else {
            seq![EventView::TextDelta(state.tag_buffer)]
        },
{
    let queue = queued(item, state);
    if queue.len() > 0 {
        assert(seq![queue[0]] + queue.drop_first() =~= queue);
    }
    assert(queue.take(state.pending_events.len() as int) =~= state.pending_events);
    if let SseItem::Message(text) = item {
        if let Some(value) = crate::json::text_as_json(text@) {
            crate::provider::openai_compat::lemma_chunk_keeps_pending(value, state);
        }
    }
}

/// A blank line that is still owed as a separator is dropped once, where it
/// comes; where something else comes, all of that is handed out.
pub proof fn law_owed_separator_is_dropped(state: OpenAiView, rest: Seq<char>)
    requires
        state.tag_buffer.len() == 0,
        state.pending_strip_newlines,
        no_angle(rest),
    ensures
        split_scan(state, "\n\n"@ + rest).events == stretch(state.in_think_block, rest),
        !begins(rest, "\n\n"@) ==> split_scan(state, rest).events == stretch(
            state.in_think_block,
            rest,
        ),
        !split_scan(state, "\n\n"@ + rest).strip,
{
    reveal_strlit("\n\n");
    let plain = OpenAiView { pending_strip_newlines: false, ..state };
    let line = "\n\n"@;
    law_plain_text_passes(plain, rest);
    assert(state.tag_buffer + (line + rest) =~= line + rest);
    assert((line + rest).subrange(0, 2) =~= line);
    assert(after(line + rest, 2) =~= rest);
    assert(state.tag_buffer + rest =~= rest);
    assert(plain.tag_buffer + rest =~= rest);
}

/// The tag that ends a think block ends it there: what stood before it is
/// reasoning, what follows is text, and a blank line is owed where none stands
/// behind it.
pub proof fn law_think_block_ends_at_its_tag(
    state: OpenAiView,
    reasoning: Seq<char>,
    text: Seq<char>,
)
    requires
        state.in_think_block,
        state.tag_buffer.len() == 0,
        !state.pending_strip_newlines,
        no_angle(reasoning),
        no_angle(text),
    ensures
        ({
            let scan = split_scan(state, reasoning + "</think>"@ + text);
            &&& reasoning_of(scan.events) == reasoning
            &&& !scan.in_think
            &&& !begins(text, "\n\n"@) ==> text_of(scan.events) == text && scan.strip
            &&& begins(text, "\n\n"@) ==> text_of(scan.events) == after(text, 2) && !scan.strip
        }),
{
    lemma_tag_len();
    reveal_strlit("</think>");
    let tag = think_tag(true);
    let all = reasoning + tag + text;
    let n = reasoning.len() as int;
    assert(state.tag_buffer + all =~= all);
    assert(all.subrange(n, n + tag.len()) =~= tag);
    assert(occurs_at(all, tag, n));
    assert forall|j: int| 0 <= j < n implies !#[trigger] occurs_at(all, tag, j) by {
        if occurs_at(all, tag, j) {
            assert(all.subrange(j, j + tag.len())[0] == all[j]);
            assert(all[j] == reasoning[j]);
        }
    }
    lemma_find_is(all, tag, 0, n);
    assert(after(all, n + tag.len()) =~= text);
    assert(all.take(n) =~= reasoning);
    let head = stretch(true, reasoning);
    let rest = if begins(text, "\n\n"@) {
        after(text, 2)
    } else {
        text
    };
    assert(no_angle(rest)) by {
        if begins(text, "\n\n"@) {
            assert forall|i: int| 0 <= i < rest.len() implies #[trigger] rest[i] != '<' by {
                assert(rest[i] == text[i + 2]);
            }
        }
    }
    let strip = !begins(text, "\n\n"@);
    lemma_plain_scan(rest, strip);
    lemma_more_events(head, stretch(false, rest));
    lemma_stretch(true, reasoning);
    lemma_stretch(false, rest);
}

proof fn lemma_stretch(in_think: bool, s: Seq<char>)
    ensures
        text_of(stretch(in_think, s)) == if in_think {
            Seq::empty()
        } else {
            s
        },
        reasoning_of(stretch(in_think, s)) == if in_think {
            s
        } else {
            Seq::empty()
        },
{
    if s.len() == 0 {
        assert(s =~= Seq::<char>::empty());
        assert(text_of(Seq::<EventView>::empty()) =~= Seq::<char>::empty());
        assert(reasoning_of(Seq::<EventView>::empty()) =~= Seq::<char>::empty());
    } else if in_think {
        lemma_one_event(EventView::ReasoningDelta(s));
    } else {
        lemma_one_event(EventView::TextDelta(s));
    }
}

proof fn lemma_plain_scan(text: Seq<char>, strip: bool)
    requires
        no_angle(text),
    ensures
        scan_think(text, false, strip).events == stretch(false, text),
        !scan_think(text, false, strip).in_think,
        scan_think(text, false, strip).strip == strip,
{
    let plain = OpenAiView {
        tool_calls: Seq::empty(),
        pending_events: Seq::empty(),
        in_think_block: false,
        tag_buffer: Seq::empty(),
        pending_strip_newlines: false,
    };
    law_plain_text_passes(plain, text);
    assert(plain.tag_buffer + text =~= text);
    lemma_tag_len();
    reveal_strlit("<think>");
    let tag = think_tag(false);
    assert forall|j: int| 0 <= j implies !#[trigger] occurs_at(text, tag, j) by {
        if occurs_at(text, tag, j) {
            assert(text.subrange(j, j + tag.len())[0] == text[j]);
        }
    }
    lemma_find_none(text, tag, 0);
}

/// A stream that fails is told with its error, and nothing is taken from what
/// waits; one that was merely closed hands out what waits, and then it is over.
/// What opens a stream brings nothing. A message brings the events of its chunk,
/// and the next state of the stream is the one behind that chunk.
pub proof fn law_stream_tells_how_it_goes(item: SseItem, state: OpenAiView)
    ensures
        match item {
            SseItem::Open => openai_step(item, state) is Wait && openai_step_state(item, state)
                == state,
            SseItem::Failed(text) => {
                &&& !mentions(text@, "Stream ended"@) ==> openai_step(item, state)
                    == StepView::Fail("SSE stream error: "@ + text@) && openai_step_state(
                    item,
                    state,
                ) == state
                &&& mentions(text@, "Stream ended"@) ==> openai_step(item, state) == openai_step(
                    SseItem::Ended,
                    state,
                ) && openai_step_state(item, state) == openai_step_state(SseItem::Ended, state)
            },
            SseItem::Ended => {
                &&& !(openai_step(item, state) is Fail) && !(openai_step(item, state) is Wait)
                &&& openai_step(item, state) is Finish <==> state.pending_events.len() == 0
                    && state.tag_buffer.len() == 0
                &&& openai_step_state(item, state).tag_buffer.len() == 0
            },
            SseItem::Message(data) => {
                &&& !(openai_step(item, state) is Fail) && !(openai_step(item, state) is Finish)
                &&& trim(data@) != "[DONE]"@ ==> match text_as_json(data@) {
                    Some(value) => {
                        &&& queued(item, state) == state.pending_events + match chunk_events(
                            value,
                            state,
                        ) {
                            Some(events) => events,
                            None => Seq::empty(),
                        }
                        &&& openai_step_state(item, state).tag_buffer == chunk_state(
                            value,
                            state,
                        ).tag_buffer
                        &&& openai_step_state(item, state).tool_calls == chunk_state(
                            value,
                            state,
                        ).tool_calls
                        &&& openai_step_state(item, state).in_think_block == chunk_state(
                            value,
                            state,
                        ).in_think_block
                    },
                    None => queued(item, state) == state.pending_events,
                }
            },
        },
{
    assert(state.pending_events + Seq::<EventView>::empty() =~= state.pending_events);
}

} // verus!
