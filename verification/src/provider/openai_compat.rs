//! Providers that speak the OpenAI Chat Completions API: DeepSeek, GPT, Groq,
//! Together AI and others.
use crate::json::{
    Json, JsonView, items_view, json_as_text, lemma_array_view, object1, object2, parse_json,
    text_as_json, with_field,
};
use crate::provider::anthropic::{text_block, with_params};
use crate::provider::messages::{filter_valid_messages, repaired, sendable};
use crate::provider::params::{merge_params, params_view};
use crate::provider::stream::{SseItem, StepView, StreamStep};
use crate::provider::usage::{cache_hits, count, count_in, extract_cache_hit_tokens};
use crate::text::{
    after, begins, chars_of, contains, find, find_text, mentions, join2, lemma_find_from, option_str,
    option_text, owned, part, same, starts_with, strip_trailing, trim, trimmed, without_trailing,
};
use crate::types::{
    BlockView, ContentBlock, EventView, ImageSource, ImageView, Message, MessageView, Role,
    StreamEvent, ToolDefinition, ToolView, blocks_text, blocks_view, call_views, events_view,
    option_events, text_of_blocks, tools_view,
};
use std::collections::VecDeque;
use vstd::prelude::*;
use vstd::string::*;

verus! {

/// A tool call that is being put together from its pieces.
#[derive(Debug, Default)]
pub struct ToolCallAccumulator {
    /// The call's id.
    pub id: String,
    /// The tool's name.
    pub name: String,
    /// The arguments so far.
    pub arguments: String,
    /// Whether the start of the call has been reported.
    pub started: bool,
}

/// What a [`ToolCallAccumulator`] holds.
#[verifier::ext_equal]
pub struct CallView {
    /// The call's id.
    pub id: Seq<char>,
    /// The tool's name.
    pub name: Seq<char>,
    /// The arguments so far.
    pub arguments: Seq<char>,
    /// Whether the start of the call has been reported.
    pub started: bool,
}

impl View for ToolCallAccumulator {
    type V = CallView;

    open spec fn view(&self) -> CallView {
        CallView {
            id: self.id@,
            name: self.name@,
            arguments: self.arguments@,
            started: self.started,
        }
    }
}

/// What is kept between the chunks of one answer.
#[derive(Debug, Default)]
pub struct OpenAiStreamState {
    /// The tool calls that are being put together.
    pub tool_calls: Vec<ToolCallAccumulator>,
    /// The events that are ready to be handed out, oldest first.
    pub pending_events: VecDeque<StreamEvent>,
    /// Whether the text is inside a `<think>` block.
    pub in_think_block: bool,
    /// The end of the text that may still become a tag.
    pub tag_buffer: String,
    /// Whether a blank line at the start of the next chunk is the separator
    /// after a `</think>`.
    pub pending_strip_newlines: bool,
}

/// What an [`OpenAiStreamState`] holds.
#[verifier::ext_equal]
pub struct OpenAiView {
    /// The tool calls that are being put together.
    pub tool_calls: Seq<CallView>,
    /// The events that are ready to be handed out, oldest first.
    pub pending_events: Seq<EventView>,
    /// Whether the text is inside a `<think>` block.
    pub in_think_block: bool,
    /// The end of the text that may still become a tag.
    pub tag_buffer: Seq<char>,
    /// Whether a blank line at the start of the next chunk is a separator.
    pub pending_strip_newlines: bool,
}

impl View for OpenAiStreamState {
    type V = OpenAiView;

    open spec fn view(&self) -> OpenAiView {
        OpenAiView {
            tool_calls: self.tool_calls@.map_values(|call: ToolCallAccumulator| call@),
            pending_events: events_view(self.pending_events@),
            in_think_block: self.in_think_block,
            tag_buffer: self.tag_buffer@,
            pending_strip_newlines: self.pending_strip_newlines,
        }
    }
}

/// The tag that ends the present stretch of text: `</think>` inside a think
/// block, `<think>` outside.
pub open spec fn think_tag(in_think: bool) -> Seq<char> {
    if in_think {
        "</think>"@
    } else {
        "<think>"@
    }
}

/// A stretch of text as events: reasoning inside a think block, text outside,
/// nothing where it is empty.
pub open spec fn stretch(in_think: bool, s: Seq<char>) -> Seq<EventView> {
    if s.len() == 0 {
        Seq::empty()
    } else if in_think {
        seq![EventView::ReasoningDelta(s)]
    } else {
        seq![EventView::TextDelta(s)]
    }
}

/// Where the last `<` of the text stands; the text's length where it has none.
pub open spec fn last_angle(text: Seq<char>) -> int
    decreases text.len(),
{
    if text.len() == 0 {
        0
    } else if text.last() == '<' {
        text.len() - 1
    } else if last_angle(text.drop_last()) == text.len() - 1 {
        text.len() as int
    } else {
        last_angle(text.drop_last())
    }
}

/// What a text with think tags comes to.
#[verifier::ext_equal]
pub struct ThinkScan {
    /// The stretches of text and reasoning.
    pub events: Seq<EventView>,
    /// Whether the text ends inside a think block.
    pub in_think: bool,
    /// The end of the text that may still become a tag.
    pub buffer: Seq<char>,
    /// Whether a blank line that follows is a separator.
    pub strip: bool,
}

/// The scan with `events` put in front.
pub open spec fn preceded(events: Seq<EventView>, scan: ThinkScan) -> ThinkScan {
    ThinkScan { events: events + scan.events, ..scan }
}

/// What `text` comes to, read from inside or outside a think block.
///
/// Up to each tag, the text is one stretch. A blank line right after
/// `</think>` is a separator and dropped; where it is not there, it may still
/// come with the next chunk. After the last tag, what stands before the last
/// `<` is a stretch, and the rest is held back.
pub open spec fn scan_think(text: Seq<char>, in_think: bool, strip: bool) -> ThinkScan
    decreases text.len(),
{
    let tag = think_tag(in_think);
    match find(text, tag) {
        Some(pos) => {
            proof {
                lemma_find_from(text, tag, 0);
                lemma_tag_len();
            }
            let rest = after(text, pos + tag.len());
            let head = stretch(in_think, text.take(pos));
            if !in_think {
                preceded(head, scan_think(rest, true, strip))
            } else if begins(rest, "\n\n"@) {
                preceded(head, scan_think(after(rest, 2), false, strip))
            } else {
                preceded(head, scan_think(rest, false, true))
            }
        },
        None => ThinkScan {
            events: stretch(in_think, text.take(last_angle(text))),
            in_think,
            buffer: after(text, last_angle(text)),
            strip,
        },
    }
}

/// The text that is scanned when `content` comes in: what was held back comes
/// first, and a separator that is still owed is dropped.
pub open spec fn pending_text(state: OpenAiView, content: Seq<char>) -> Seq<char> {
    let text = state.tag_buffer + content;
    if state.pending_strip_newlines && begins(text, "\n\n"@) {
        after(text, 2)
    } else {
        text
    }
}

/// What the content `content` comes to in the state `state`.
pub open spec fn split_scan(state: OpenAiView, content: Seq<char>) -> ThinkScan {
    scan_think(pending_text(state, content), state.in_think_block, false)
}

/// The state after a scan.
pub open spec fn scanned(state: OpenAiView, scan: ThinkScan) -> OpenAiView {
    OpenAiView {
        in_think_block: scan.in_think,
        tag_buffer: scan.buffer,
        pending_strip_newlines: scan.strip,
        ..state
    }
}

/// How long the tags and the separator are.
pub proof fn lemma_tag_len()
    ensures
        think_tag(true).len() == 8,
        think_tag(false).len() == 7,
        "\n\n"@.len() == 2,
{
    reveal_strlit("</think>");
    reveal_strlit("<think>");
    reveal_strlit("\n\n");
}

proof fn lemma_last_angle(text: Seq<char>)
    ensures
        0 <= last_angle(text) <= text.len(),
        last_angle(text) < text.len() ==> text[last_angle(text)] == '<',
        forall|j: int| last_angle(text) < j < text.len() ==> text[j] != '<',
        last_angle(text) == text.len() ==> forall|j: int| 0 <= j < text.len() ==> text[j] != '<',
    decreases text.len(),
{
    if text.len() > 0 && text.last() != '<' {
        lemma_last_angle(text.drop_last());
        assert forall|j: int| last_angle(text) < j < text.len() implies text[j] != '<' by {
            if j < text.len() - 1 {
                assert(text.drop_last()[j] == text[j]);
            }
        }
        assert forall|j: int| last_angle(text) == text.len() && 0 <= j < text.len() implies text[j]
            != '<' by {
            if j < text.len() - 1 {
                assert(text.drop_last()[j] == text[j]);
            }
        }
    }
}

/// Appends a stretch of text to the events, where it is not empty.
fn push_stretch(events: &mut Vec<StreamEvent>, in_think: bool, s: String)
    ensures
        events_view(final(events)@) == events_view(old(events)@) + stretch(in_think, s@),
{
    let ghost before = events_view(events@);
    if s.as_str().is_empty() {
        assert(before + Seq::empty() =~= before);
    } else if in_think {
        events.push(StreamEvent::ReasoningDelta(s));
        assert(events_view(events@) =~= before + seq![EventView::ReasoningDelta(s@)]);
    } else {
        events.push(StreamEvent::TextDelta(s));
        assert(events_view(events@) =~= before + seq![EventView::TextDelta(s@)]);
    }
}

/// Where the last `<` of the text stands; the text's length where it has none.
fn find_last_angle(text: &str) -> (r: usize)
    ensures
        r == last_angle(text@),
{
    let chars = chars_of(text);
    let mut n: usize = chars.len();
    assert(text@.take(text@.len() as int) =~= text@);
    while n > 0
        invariant
            chars@ == text@,
            n <= chars@.len(),
            forall|j: int| n <= j < chars@.len() ==> chars@[j] != '<',
        decreases n,
    {
        if chars[n - 1] == '<' {
            proof {
                lemma_last_angle(text@);
            }
            return n - 1;
        }
        n -= 1;
    }
    proof {
        lemma_last_angle(text@);
    }
    chars.len()
}

/// Splits the incoming text at `<think>` and `</think>`: what stands outside a
/// think block is text, what stands inside is reasoning. A tag may come in
/// pieces: what follows the last `<` is held back for the next call.
pub fn split_think_tags(content: &str, state: &mut OpenAiStreamState) -> (r: Vec<StreamEvent>)
    ensures
        events_view(r@) == split_scan(old(state)@, content@).events,
        final(state)@ == scanned(old(state)@, split_scan(old(state)@, content@)),
{
    proof {
        lemma_tag_len();
    }
    let ghost start = state@;
    let mut events: Vec<StreamEvent> = Vec::new();
    let mut text: String = join2(state.tag_buffer.as_str(), content);
    if state.pending_strip_newlines && starts_with(text.as_str(), "\n\n") {
        text = part(text.as_str(), 2, text.as_str().unicode_len());
    }
    let mut in_think: bool = state.in_think_block;
    let mut strip: bool = false;
    let ghost whole = split_scan(start, content@);
    assert(events_view(events@) =~= Seq::<EventView>::empty());
    assert(preceded(Seq::empty(), whole) =~= whole);
    loop
        invariant
            preceded(events_view(events@), scan_think(text@, in_think, strip)) == whole,
            think_tag(true).len() == 8,
            think_tag(false).len() == 7,
            "\n\n"@.len() == 2,
        ensures
            find(text@, think_tag(in_think)) is None,
            preceded(events_view(events@), scan_think(text@, in_think, strip)) == whole,
        decreases text@.len(),
    {
        let ghost before = events_view(events@);
        let ghost now = text@;
        let tag: &str = if in_think {
            "</think>"
        } else {
            "<think>"
        };
        proof {
            lemma_find_from(text@, tag@, 0);
        }
        match find_text(text.as_str(), tag) {
            Some(pos) => {
                let n: usize = text.as_str().unicode_len();
                let size: usize = if in_think {
                    8
                } else {
                    7
                };
                let head: String = part(text.as_str(), 0, pos);
                assert(head@ =~= now.take(pos as int));
                push_stretch(&mut events, in_think, head);
                text = part(text.as_str(), pos + size, n);
                let ghost rest = text@;
                if in_think {
                    if starts_with(text.as_str(), "\n\n") {
                        text = part(text.as_str(), 2, text.as_str().unicode_len());
                    } else {
                        strip = true;
                    }
                }
                in_think = !in_think;
                proof {
                    let tail = scan_think(text@, in_think, strip).events;
                    let head_events = stretch(!in_think, now.take(pos as int));
                    assert((before + head_events) + tail =~= before + (head_events + tail));
                }
            },
            None => {
                break;
            },
        }
    }
    let n: usize = text.as_str().unicode_len();
    let angle: usize = find_last_angle(text.as_str());
    proof {
        lemma_last_angle(text@);
    }
    let head: String = part(text.as_str(), 0, angle);
    assert(head@ =~= text@.take(angle as int));
    push_stretch(&mut events, in_think, head);
    state.tag_buffer = part(text.as_str(), angle, n);
    state.in_think_block = in_think;
    state.pending_strip_newlines = strip;
    events
}

/// Hands out what is held back, once no more text can come.
pub fn flush_think_buffer(state: &mut OpenAiStreamState) -> (r: Option<StreamEvent>)
    ensures
        match r {
            Some(event) => stretch(old(state)@.in_think_block, old(state)@.tag_buffer) == seq![event@],
            None => old(state)@.tag_buffer.len() == 0,
        },
        final(state)@ == (OpenAiView { tag_buffer: Seq::empty(), ..old(state)@ }),
{
    if state.tag_buffer.as_str().is_empty() {
        assert(state.tag_buffer@ =~= Seq::empty());
        return None;
    }
    let buffer: String = state.tag_buffer.clone();
    state.tag_buffer = String::new();
    Some(
        if state.in_think_block {
            StreamEvent::ReasoningDelta(buffer)
        } else {
            StreamEvent::TextDelta(buffer)
        },
    )
}

/// The events so far and the state, while a chunk is read.
#[verifier::ext_equal]
pub struct ChunkStep {
    /// The events so far.
    pub events: Seq<EventView>,
    /// The state.
    pub state: OpenAiView,
}

/// A tool call of which nothing is known yet.
pub open spec fn blank_call() -> CallView {
    CallView { id: Seq::empty(), name: Seq::empty(), arguments: Seq::empty(), started: false }
}

/// The calls, with blank ones appended up to a length of `n`.
pub open spec fn grown(calls: Seq<CallView>, n: int) -> Seq<CallView> {
    if calls.len() >= n {
        calls
    } else {
        calls + Seq::new((n - calls.len()) as nat, |i: int| blank_call())
    }
}

/// The text of a delta: split at its think tags.
pub open spec fn content_step(delta: JsonView, step: ChunkStep) -> ChunkStep {
    match delta.text_field("content"@) {
        Some(content) => if content.len() > 0 {
            let scan = split_scan(step.state, content);
            ChunkStep { events: step.events + scan.events, state: scanned(step.state, scan) }
        } else {
            step
        },
        None => step,
    }
}

/// The reasoning that a delta holds apart from its text.
pub open spec fn reasoning_step(delta: JsonView, step: ChunkStep) -> ChunkStep {
    match delta.text_field("reasoning_content"@) {
        Some(reasoning) => if reasoning.len() > 0 {
            ChunkStep { events: step.events.push(EventView::ReasoningDelta(reasoning)), ..step }
        } else {
            step
        },
        None => step,
    }
}

/// The place of the tool call that a piece belongs to.
pub open spec fn call_index(piece: JsonView) -> usize {
    match piece.uint_field("index"@) {
        Some(n) => n as usize,
        None => 0,
    }
}

/// The arguments in a piece of a tool call: a string as it is, an object as
/// its text, anything else not at all.
pub open spec fn argument_text(piece: JsonView) -> Option<Seq<char>> {
    match piece.field("function"@) {
        Some(function) => match function.field("arguments"@) {
            Some(JsonView::Text(s)) => Some(s),
            Some(JsonView::Object(fields)) => Some(
                json_as_text(JsonView::Object(fields)),
            ),
            _ => None,
        },
        None => None,
    }
}

/// The call with what a piece adds to it.
pub open spec fn extended_call(call: CallView, piece: JsonView) -> CallView {
    let id = match piece.text_field("id"@) {
        Some(id) => id,
        None => call.id,
    };
    let name = match piece.field("function"@) {
        Some(function) => match function.text_field("name"@) {
            Some(name) => name,
            None => call.name,
        },
        None => call.name,
    };
    let arguments = match argument_text(piece) {
        Some(more) => call.arguments + more,
        None => call.arguments,
    };
    CallView { id, name, arguments, started: call.started }
}

/// Whether the start of the call is to be reported now: once it has a name and
/// an id.
pub open spec fn starts_now(call: CallView) -> bool {
    !call.started && call.name.len() > 0 && call.id.len() > 0
}

/// The start of a call, as far as it is to be reported now.
pub open spec fn start_events(call: CallView) -> Seq<EventView> {
    if starts_now(call) {
        seq![EventView::ToolUseStart { id: call.id, name: call.name }]
    } else {
        Seq::empty()
    }
}

/// The arguments that a piece brings, as events.
pub open spec fn argument_events(piece: JsonView) -> Seq<EventView> {
    match argument_text(piece) {
        Some(more) => seq![EventView::ToolInputDelta(more)],
        None => Seq::empty(),
    }
}

/// One piece of a tool call: the start of the call comes before the arguments
/// that the piece brings.
pub open spec fn piece_step(piece: JsonView, step: ChunkStep) -> ChunkStep {
    let index = call_index(piece) as int;
    let calls = grown(step.state.tool_calls, index + 1);
    let call = extended_call(calls[index], piece);
    ChunkStep {
        events: step.events + start_events(call) + argument_events(piece),
        state: OpenAiView {
            tool_calls: calls.update(
                index,
                CallView { started: call.started || starts_now(call), ..call },
            ),
            ..step.state
        },
    }
}

/// The pieces of tool calls, in order.
pub open spec fn pieces_step(pieces: Seq<JsonView>, step: ChunkStep) -> ChunkStep
    decreases pieces.len(),
{
    if pieces.len() == 0 {
        step
    } else {
        piece_step(pieces.last(), pieces_step(pieces.drop_last(), step))
    }
}

/// The tool calls of a delta.
pub open spec fn calls_step(delta: JsonView, step: ChunkStep) -> ChunkStep {
    match delta.array_field("tool_calls"@) {
        Some(pieces) => pieces_step(pieces, step),
        None => step,
    }
}

/// Whether the choice says that the answer is finished.
pub open spec fn finishes(choice: JsonView) -> bool {
    match choice.text_field("finish_reason"@) {
        Some(reason) => reason == "tool_calls"@ || reason == "stop"@,
        None => false,
    }
}

/// The ends of `n` tool calls.
pub open spec fn call_ends(n: nat) -> Seq<EventView> {
    Seq::new(n, |i: int| EventView::ToolUseEnd)
}

/// The end of an answer: every tool call that was put together is complete.
pub open spec fn finish_step(choice: JsonView, step: ChunkStep) -> ChunkStep {
    if finishes(choice) {
        ChunkStep {
            events: step.events + call_ends(step.state.tool_calls.len()),
            state: OpenAiView { tool_calls: Seq::empty(), ..step.state },
        }
    } else {
        step
    }
}

/// One choice of a chunk: its text, its reasoning, its tool calls and whether
/// it finishes the answer, in this order. A choice without a delta is skipped.
pub open spec fn choice_step(choice: JsonView, step: ChunkStep) -> ChunkStep {
    match choice.field("delta"@) {
        Some(delta) => finish_step(
            choice,
            calls_step(delta, reasoning_step(delta, content_step(delta, step))),
        ),
        None => step,
    }
}

/// The choices of a chunk, in order.
pub open spec fn choices_step(choices: Seq<JsonView>, step: ChunkStep) -> ChunkStep
    decreases choices.len(),
{
    if choices.len() == 0 {
        step
    } else {
        choice_step(choices.last(), choices_step(choices.drop_last(), step))
    }
}

/// What a chunk says of the tokens: nothing where both counts are zero.
pub open spec fn usage_events(value: JsonView) -> Seq<EventView> {
    match value.field("usage"@) {
        Some(usage) => {
            let input = count(usage, "prompt_tokens"@);
            let output = count(usage, "completion_tokens"@);
            if input > 0 || output > 0 {
                seq![
                    EventView::Usage {
                        input_tokens: input,
                        output_tokens: output,
                        cache_hit_tokens: cache_hits(usage),
                        cache_creation_tokens: 0,
                        reasoning_tokens: 0,
                    },
                ]
            } else {
                Seq::empty()
            }
        },
        None => Seq::empty(),
    }
}

/// The choices of a chunk with `choices`, and what it says of the tokens.
pub open spec fn chunk_step(value: JsonView, choices: Seq<JsonView>, state: OpenAiView) -> ChunkStep {
    let step = choices_step(choices, ChunkStep { events: Seq::empty(), state });
    ChunkStep { events: step.events + usage_events(value), ..step }
}

/// The events of a chunk: nothing where it has no choices or no event.
pub open spec fn chunk_events(value: JsonView, state: OpenAiView) -> Option<Seq<EventView>> {
    match value.array_field("choices"@) {
        Some(choices) => {
            let events = chunk_step(value, choices, state).events;
            if events.len() == 0 {
                None
            } else {
                Some(events)
            }
        },
        None => None,
    }
}

/// The state after a chunk.
pub open spec fn chunk_state(value: JsonView, state: OpenAiView) -> OpenAiView {
    match value.array_field("choices"@) {
        Some(choices) => chunk_step(value, choices, state).state,
        None => state,
    }
}

impl ToolCallAccumulator {
    /// A tool call of which nothing is known yet.
    pub fn blank() -> (r: Self)
        ensures
            r@ == blank_call(),
    {
        ToolCallAccumulator {
            id: String::new(),
            name: String::new(),
            arguments: String::new(),
            started: false,
        }
    }
}

impl OpenAiStreamState {
    /// The state before the first chunk.
    pub fn new() -> (r: Self)
        ensures
            r@ == (OpenAiView {
                tool_calls: Seq::empty(),
                pending_events: Seq::empty(),
                in_think_block: false,
                tag_buffer: Seq::empty(),
                pending_strip_newlines: false,
            }),
    {
        let r = OpenAiStreamState {
            tool_calls: Vec::new(),
            pending_events: VecDeque::new(),
            in_think_block: false,
            tag_buffer: String::new(),
            pending_strip_newlines: false,
        };
        assert(r@.tool_calls =~= Seq::empty());
        assert(r@.pending_events =~= Seq::empty());
        r
    }
}

/// The arguments in a piece of a tool call.
fn read_arguments(piece: &Json) -> (r: Option<String>)
    ensures
        match r {
            Some(s) => argument_text(piece@) == Some(s@),
            None => argument_text(piece@) is None,
        },
{
    broadcast use {crate::json::lemma_array_view, crate::json::lemma_object_view};
    match piece.get("function") {
        Some(function) => match function.get("arguments") {
            Some(arguments) => match arguments {
                Json::Text(s) => Some(s.clone()),
                Json::Object(_) => Some(arguments.to_text()),
                _ => None,
            },
            None => None,
        },
        None => None,
    }
}

/// Appends blank calls until the place `index` exists.
fn grow_calls(state: &mut OpenAiStreamState, index: usize)
    ensures
        final(state)@ == (OpenAiView {
            tool_calls: grown(old(state)@.tool_calls, index + 1),
            ..old(state)@
        }),
{
    let ghost start = state@;
    while state.tool_calls.len() <= index
        invariant
            state@.tool_calls.len() == state.tool_calls@.len() >= start.tool_calls.len(),
            start.tool_calls.len() <= index + 1 ==> state@.tool_calls.len() <= index + 1,
            start.tool_calls.len() > index + 1 ==> state@ == start,
            state@ == (OpenAiView {
                tool_calls: grown(start.tool_calls, state@.tool_calls.len() as int),
                ..start
            }),
        decreases index + 1 - state@.tool_calls.len(),
    {
        let ghost before = state@.tool_calls;
        state.tool_calls.push(ToolCallAccumulator::blank());
        assert(state@.tool_calls =~= before.push(blank_call()));
        assert(state@.tool_calls =~= grown(start.tool_calls, (before.len() + 1) as int));
    }
    assert(state@.tool_calls =~= grown(start.tool_calls, index + 1));
}

/// Adds a piece to the call it belongs to. Returns the arguments in it.
fn extend_call(call: &mut ToolCallAccumulator, piece: &Json) -> (r: Option<String>)
    ensures
        final(call)@ == extended_call(old(call)@, piece@),
        match r {
            Some(s) => argument_text(piece@) == Some(s@),
            None => argument_text(piece@) is None,
        },
{
    if let Some(id) = piece.get_str("id") {
        call.id = id.to_owned();
    }
    if let Some(function) = piece.get("function") {
        if let Some(name) = function.get_str("name") {
            call.name = name.to_owned();
        }
    }
    let more = read_arguments(piece);
    if let Some(text) = &more {
        call.arguments.append(text.as_str());
    }
    more
}

/// Takes up one piece of a tool call.
fn read_piece(piece: &Json, events: &mut Vec<StreamEvent>, state: &mut OpenAiStreamState)
    ensures
        piece_step(
            piece@,
            ChunkStep { events: events_view(old(events)@), state: old(state)@ },
        ) == (ChunkStep { events: events_view(final(events)@), state: final(state)@ }),
{
    let ghost start = state@;
    let ghost first = events_view(events@);
    let index: usize = match piece.get_u64("index") {
        Some(n) => n as usize,
        None => 0,
    };
    grow_calls(state, index);
    let ghost calls = state@.tool_calls;
    assert(calls == grown(start.tool_calls, index + 1));
    assert(calls.len() == state.tool_calls@.len());
    let mut call = state.tool_calls.remove(index);
    assert(call@ == calls[index as int]);
    let more = extend_call(&mut call, piece);
    let ghost extended = call@;
    if !call.started && !call.name.as_str().is_empty() && !call.id.as_str().is_empty() {
        call.started = true;
        events.push(StreamEvent::ToolUseStart { id: call.id.clone(), name: call.name.clone() });
    }
    assert(events_view(events@) =~= first + start_events(extended));
    if let Some(more) = more {
        events.push(StreamEvent::ToolInputDelta(more));
    }
    assert(events_view(events@) =~= first + start_events(extended) + argument_events(piece@));
    let ghost done = call@;
    state.tool_calls.insert(index, call);
    assert(state@.tool_calls =~= calls.update(index as int, done));
}

/// Takes up one choice of a chunk.
fn read_choice(choice: &Json, events: &mut Vec<StreamEvent>, state: &mut OpenAiStreamState)
    ensures
        choice_step(
            choice@,
            ChunkStep { events: events_view(old(events)@), state: old(state)@ },
        ) == (ChunkStep { events: events_view(final(events)@), state: final(state)@ }),
{
    let delta = match choice.get("delta") {
        Some(delta) => delta,
        None => {
            return ;
        },
    };
    let ghost step0 = ChunkStep { events: events_view(events@), state: state@ };
    if let Some(content) = delta.get_str("content") {
        if !content.is_empty() {
            let mut more = split_think_tags(content, state);
            let ghost added = events_view(more@);
            events.append(&mut more);
            assert(events_view(events@) =~= step0.events + added);
        }
    }
    let ghost step1 = content_step(delta@, step0);
    assert(step1 == (ChunkStep { events: events_view(events@), state: state@ }));
    if let Some(reasoning) = delta.get_str("reasoning_content") {
        if !reasoning.is_empty() {
            events.push(StreamEvent::ReasoningDelta(reasoning.to_owned()));
            assert(events_view(events@) =~= step1.events.push(
                EventView::ReasoningDelta(reasoning@),
            ));
        }
    }
    let ghost step2 = reasoning_step(delta@, step1);
    assert(step2 == (ChunkStep { events: events_view(events@), state: state@ }));
    if let Some(pieces) = delta.get_array("tool_calls") {
        let ghost views = items_view(pieces@);
        let mut i: usize = 0;
        while i < pieces.len()
            invariant
                views == items_view(pieces@),
                i <= pieces@.len(),
                pieces_step(views.take(i as int), step2) == (ChunkStep {
                    events: events_view(events@),
                    state: state@,
                }),
            decreases pieces@.len() - i,
        {
            assert(views.take(i + 1).drop_last() =~= views.take(i as int));
            assert(views.take(i + 1).last() == pieces@[i as int]@);
            read_piece(&pieces[i], events, state);
            i += 1;
        }
        assert(views.take(pieces@.len() as int) =~= views);
    }
    let ghost step3 = calls_step(delta@, step2);
    assert(step3 == (ChunkStep { events: events_view(events@), state: state@ }));
    if let Some(reason) = choice.get_str("finish_reason") {
        if same(reason, "tool_calls") || same(reason, "stop") {
            let mut i: usize = 0;
            assert(step3.events + call_ends(0) =~= step3.events);
            while i < state.tool_calls.len()
                invariant
                    i <= state.tool_calls@.len(),
                    state@ == step3.state,
                    events_view(events@) == step3.events + call_ends(i as nat),
                decreases state.tool_calls@.len() - i,
            {
                let ghost before = events_view(events@);
                events.push(StreamEvent::ToolUseEnd);
                assert(events_view(events@) =~= before.push(EventView::ToolUseEnd));
                assert(call_ends((i + 1) as nat) =~= call_ends(i as nat).push(EventView::ToolUseEnd));
                i += 1;
            }
            state.tool_calls.clear();
            assert(state@.tool_calls =~= Seq::empty());
        }
    }
}

/// Takes up a chunk that has been read as JSON.
pub fn read_openai_chunk(value: &Json, state: &mut OpenAiStreamState) -> (r: Option<
    Vec<StreamEvent>,
>)
    ensures
        option_events(r) == chunk_events(value@, old(state)@),
        final(state)@ == chunk_state(value@, old(state)@),
{
    let choices = match value.get_array("choices") {
        Some(choices) => choices,
        None => {
            return None;
        },
    };
    let ghost views = items_view(choices@);
    let mut events: Vec<StreamEvent> = Vec::new();
    let ghost step0 = ChunkStep { events: Seq::empty(), state: state@ };
    assert(events_view(events@) =~= Seq::<EventView>::empty());
    let mut i: usize = 0;
    while i < choices.len()
        invariant
            views == items_view(choices@),
            i <= choices@.len(),
            choices_step(views.take(i as int), step0) == (ChunkStep {
                events: events_view(events@),
                state: state@,
            }),
        decreases choices@.len() - i,
    {
        assert(views.take(i + 1).drop_last() =~= views.take(i as int));
        assert(views.take(i + 1).last() == choices@[i as int]@);
        read_choice(&choices[i], &mut events, state);
        i += 1;
    }
    assert(views.take(choices@.len() as int) =~= views);
    let ghost step = choices_step(views, step0);
    if let Some(usage) = value.get("usage") {
        let input: u64 = count_in(usage, "prompt_tokens");
        let output: u64 = count_in(usage, "completion_tokens");
        if input > 0 || output > 0 {
            events.push(
                StreamEvent::Usage {
                    input_tokens: input,
                    output_tokens: output,
                    cache_hit_tokens: extract_cache_hit_tokens(usage),
                    cache_creation_tokens: 0,
                    reasoning_tokens: 0,
                },
            );
        }
    }
    assert(events_view(events@) =~= step.events + usage_events(value@));
    if events.is_empty() {
        None
    } else {
        Some(events)
    }
}

/// Takes up a chunk. One that is not JSON changes nothing.
pub fn parse_openai_chunk(data: &str, state: &mut OpenAiStreamState) -> (r: Option<
    Vec<StreamEvent>,
>)
    ensures
        match text_as_json(data@) {
            Some(value) => option_events(r) == chunk_events(value, old(state)@) && final(state)@
                == chunk_state(value, old(state)@),
            None => r is None && final(state)@ == old(state)@,
        },
{
    match parse_json(data) {
        Some(value) => read_openai_chunk(&value, state),
        None => None,
    }
}

/// The events that flushing hands out.
pub open spec fn flushed(state: OpenAiView) -> Seq<EventView> {
    stretch(state.in_think_block, state.tag_buffer)
}

/// The events that wait to be handed out after what the stream yields, and
/// whether the answer can go on after them.
pub open spec fn queued(item: SseItem, state: OpenAiView) -> Seq<EventView> {
    match item {
        SseItem::Open => state.pending_events,
        SseItem::Message(data) => if trim(data@) == "[DONE]"@ {
            state.pending_events + flushed(state) + seq![EventView::Done]
        } else {
            match text_as_json(data@) {
                Some(value) => match chunk_events(value, state) {
                    Some(events) => state.pending_events + events,
                    None => state.pending_events,
                },
                None => state.pending_events,
            }
        },
        SseItem::Failed(text) => if mentions(text@, "Stream ended"@) {
            state.pending_events + flushed(state)
        } else {
            state.pending_events
        },
        SseItem::Ended => state.pending_events + flushed(state),
    }
}

/// The step that follows what the stream yields: an error is reported, else
/// the oldest event that waits is handed out, else the answer goes on or ends.
pub open spec fn openai_step(item: SseItem, state: OpenAiView) -> StepView {
    let queue = queued(item, state);
    match item {
        SseItem::Open => StepView::Wait,
        SseItem::Failed(text) => if !mentions(text@, "Stream ended"@) {
            StepView::Fail("SSE stream error: "@ + text@)
        } else if queue.len() > 0 {
            StepView::Yield(queue[0])
        } else {
            StepView::Finish
        },
        SseItem::Message(_) => if queue.len() > 0 {
            StepView::Yield(queue[0])
        } else {
            StepView::Wait
        },
        SseItem::Ended => if queue.len() > 0 {
            StepView::Yield(queue[0])
        } else {
            StepView::Finish
        },
    }
}

/// The state after what the stream yields.
pub open spec fn openai_step_state(item: SseItem, state: OpenAiView) -> OpenAiView {
    let queue = queued(item, state);
    let rest = if queue.len() > 0 {
        queue.drop_first()
    } else {
        queue
    };
    match item {
        SseItem::Open => state,
        SseItem::Message(data) => if trim(data@) == "[DONE]"@ {
            OpenAiView { tag_buffer: Seq::empty(), pending_events: rest, ..state }
        } else {
            match text_as_json(data@) {
                Some(value) => OpenAiView { pending_events: rest, ..chunk_state(value, state) },
                None => OpenAiView { pending_events: rest, ..state },
            }
        },
        SseItem::Failed(text) => if mentions(text@, "Stream ended"@) {
            OpenAiView { tag_buffer: Seq::empty(), pending_events: rest, ..state }
        } else {
            state
        },
        SseItem::Ended => OpenAiView { tag_buffer: Seq::empty(), pending_events: rest, ..state },
    }
}

/// Takes the oldest event that waits to be handed out.
pub fn take_pending(state: &mut OpenAiStreamState) -> (r: Option<StreamEvent>)
    ensures
        match r {
            Some(event) => old(state)@.pending_events.len() > 0 && event@
                == old(state)@.pending_events[0] && final(state)@ == (OpenAiView {
                pending_events: old(state)@.pending_events.drop_first(),
                ..old(state)@
            }),
            None => old(state)@.pending_events.len() == 0 && final(state)@ == old(state)@,
        },
{
    let ghost start = state@;
    match state.pending_events.pop_front() {
        Some(event) => {
            assert(state@.pending_events =~= start.pending_events.drop_first());
            Some(event)
        },
        None => {
            assert(state@.pending_events =~= start.pending_events);
            None
        },
    }
}

/// Lets what is held back wait to be handed out.
fn queue_flush(state: &mut OpenAiStreamState)
    ensures
        final(state)@ == (OpenAiView {
            tag_buffer: Seq::empty(),
            pending_events: old(state)@.pending_events + flushed(old(state)@),
            ..old(state)@
        }),
{
    let ghost start = state@;
    if let Some(event) = flush_think_buffer(state) {
        state.pending_events.push_back(event);
        assert(state@.pending_events =~= start.pending_events + seq![event@]);
    } else {
        assert(start.pending_events + Seq::<EventView>::empty() =~= start.pending_events);
        assert(start.tag_buffer =~= Seq::empty());
    }
}

/// Lets the events wait to be handed out.
fn queue_events(state: &mut OpenAiStreamState, events: Vec<StreamEvent>)
    ensures
        final(state)@ == (OpenAiView {
            pending_events: old(state)@.pending_events + events_view(events@),
            ..old(state)@
        }),
{
    let ghost start = state@;
    let ghost all = events@;
    assert(start.pending_events + events_view(all).take(0) =~= start.pending_events);
    for event in it: events
        invariant
            it.seq() == all,
            state@ == (OpenAiView {
                pending_events: start.pending_events + events_view(all).take(it.index() as int),
                ..start
            }),
    {
        let ghost before = state@.pending_events;
        state.pending_events.push_back(event);
        assert(state@.pending_events =~= before.push(event@));
        assert(events_view(all).take(it.index() + 1) =~= events_view(all).take(
            it.index() as int,
        ).push(event@));
        assert(state@.pending_events =~= start.pending_events + events_view(all).take(
            it.index() + 1,
        ));
    }
    assert(events_view(all).take(all.len() as int) =~= events_view(all));
}

/// Takes up what the stream yields.
pub fn next_openai_step(item: SseItem, state: &mut OpenAiStreamState) -> (r: StreamStep)
    ensures
        r@ == openai_step(item, old(state)@),
        final(state)@ == openai_step_state(item, old(state)@),
{
    let ghost start = state@;
    match item {
        SseItem::Open => StreamStep::Wait,
        SseItem::Message(data) => {
            if same(trimmed(data.as_str()).as_str(), "[DONE]") {
                queue_flush(state);
                let ghost middle = state@.pending_events;
                state.pending_events.push_back(StreamEvent::Done);
                assert(state@.pending_events =~= middle.push(EventView::Done));
                assert(state@.pending_events =~= queued(item, start));
            } else if let Some(events) = parse_openai_chunk(data.as_str(), state) {
                proof {
                    lemma_chunk_keeps_pending(text_as_json(data@)->0, start);
                }
                queue_events(state, events);
            } else {
                proof {
                    if let Some(value) = text_as_json(data@) {
                        lemma_chunk_keeps_pending(value, start);
                    }
                }
            }
            assert(state@.pending_events == queued(item, start));
            match take_pending(state) {
                Some(event) => StreamStep::Yield(event),
                None => StreamStep::Wait,
            }
        },
        SseItem::Failed(text) => if contains(text.as_str(), "Stream ended") {
            queue_flush(state);
            match take_pending(state) {
                Some(event) => StreamStep::Yield(event),
                None => StreamStep::Finish,
            }
        } else {
            StreamStep::Fail(join2("SSE stream error: ", text.as_str()))
        },
        SseItem::Ended => {
            queue_flush(state);
            match take_pending(state) {
                Some(event) => StreamStep::Yield(event),
                None => StreamStep::Finish,
            }
        },
    }
}

proof fn lemma_pieces_keep_pending(pieces: Seq<JsonView>, step: ChunkStep)
    ensures
        pieces_step(pieces, step).state.pending_events == step.state.pending_events,
    decreases pieces.len(),
{
    if pieces.len() > 0 {
        lemma_pieces_keep_pending(pieces.drop_last(), step);
    }
}

proof fn lemma_choices_keep_pending(choices: Seq<JsonView>, step: ChunkStep)
    ensures
        choices_step(choices, step).state.pending_events == step.state.pending_events,
    decreases choices.len(),
{
    if choices.len() > 0 {
        lemma_choices_keep_pending(choices.drop_last(), step);
        let before = choices_step(choices.drop_last(), step);
        if let Some(delta) = choices.last().field("delta"@) {
            let middle = reasoning_step(delta, content_step(delta, before));
            if let Some(pieces) = delta.array_field("tool_calls"@) {
                lemma_pieces_keep_pending(pieces, middle);
            }
        }
    }
}

/// Reading a chunk does not touch the events that wait already.
pub proof fn lemma_chunk_keeps_pending(value: JsonView, state: OpenAiView)
    ensures
        chunk_state(value, state).pending_events == state.pending_events,
{
    if let Some(choices) = value.array_field("choices"@) {
        lemma_choices_keep_pending(choices, ChunkStep { events: Seq::empty(), state });
    }
}

/// The address of an image: its own, or one that holds the image itself.
pub open spec fn image_url(source: ImageView) -> Seq<char> {
    match source {
        ImageView::Base64 { media_type, data } => "data:"@ + media_type + ";base64,"@ + data,
        ImageView::Url { url } => url,
    }
}

/// An image as a part of a message.
pub open spec fn image_part(source: ImageView) -> JsonView {
    object2(
        "type"@,
        JsonView::Text("image_url"@),
        "image_url"@,
        object1("url"@, JsonView::Text(image_url(source))),
    )
}

/// The parts of a message of the user: its text and its images.
pub open spec fn user_parts(blocks: Seq<BlockView>) -> Seq<JsonView>
    decreases blocks.len(),
{
    if blocks.len() == 0 {
        Seq::empty()
    } else {
        let before = user_parts(blocks.drop_last());
        match blocks.last() {
            BlockView::Text { text } => before.push(text_block(text)),
            BlockView::Image { source } => before.push(image_part(source)),
            _ => before,
        }
    }
}

/// Whether a message has an image.
pub open spec fn has_image(blocks: Seq<BlockView>) -> bool {
    exists|i: int| 0 <= i < blocks.len() && (#[trigger] blocks[i]) is Image
}

/// A message of the user. Without images its content is one string, which
/// every server takes; with images it is an array of parts.
pub open spec fn user_json(blocks: Seq<BlockView>) -> JsonView {
    object2(
        "role"@,
        JsonView::Text("user"@),
        "content"@,
        if has_image(blocks) {
            JsonView::Array(user_parts(blocks))
        } else {
            JsonView::Text(blocks_text(blocks))
        },
    )
}

/// A tool call.
pub open spec fn call_json(id: Seq<char>, name: Seq<char>, arguments: Seq<char>) -> JsonView {
    with_field(
        object2("id"@, JsonView::Text(id), "type"@, JsonView::Text("function"@)),
        "function"@,
        object2("name"@, JsonView::Text(name), "arguments"@, JsonView::Text(arguments)),
    )
}

/// The tool calls among the blocks of a message.
pub open spec fn block_calls(blocks: Seq<BlockView>) -> Seq<JsonView>
    decreases blocks.len(),
{
    if blocks.len() == 0 {
        Seq::empty()
    } else {
        let before = block_calls(blocks.drop_last());
        match blocks.last() {
            BlockView::ToolUse { id, name, input } => before.push(
                call_json(id, name, json_as_text(input)),
            ),
            _ => before,
        }
    }
}

/// A text as content: `null` where it is empty.
pub open spec fn content_json(text: Seq<char>) -> JsonView {
    if text.len() > 0 {
        JsonView::Text(text)
    } else {
        JsonView::Null
    }
}

/// The message with the tool calls beside it, where there are any.
pub open spec fn with_calls(message: JsonView, calls: Seq<JsonView>) -> JsonView {
    if calls.len() > 0 {
        with_field(message, "tool_calls"@, JsonView::Array(calls))
    } else {
        message
    }
}

/// A message of the tool that was called as `id`.
pub open spec fn tool_json(id: Seq<char>, content: Seq<char>) -> JsonView {
    with_field(
        object2("role"@, JsonView::Text("tool"@), "tool_call_id"@, JsonView::Text(id)),
        "content"@,
        JsonView::Text(content),
    )
}

/// A message, as it is sent.
pub open spec fn openai_message(message: MessageView) -> JsonView {
    match message.role {
        Role::User => user_json(message.content),
        Role::Assistant => with_calls(
            object2(
                "role"@,
                JsonView::Text("assistant"@),
                "content"@,
                content_json(blocks_text(message.content)),
            ),
            block_calls(message.content),
        ),
        Role::Tool => if message.content.len() > 0 && message.content[0] is ToolResult {
            tool_json(
                message.content[0]->tool_use_id,
                message.content[0]->ToolResult_content,
            )
        } else {
            object2(
                "role"@,
                JsonView::Text("user"@),
                "content"@,
                JsonView::Text(blocks_text(message.content)),
            )
        },
    }
}

/// The arguments of a tool call as they are sent again: an empty object where
/// they are not JSON, since servers reject such a call.
pub open spec fn safe_arguments(arguments: Seq<char>) -> Seq<char> {
    match text_as_json(arguments) {
        Some(_) => arguments,
        None => "{}"@,
    }
}

/// The tool calls of an answer, as they are kept in a conversation.
pub open spec fn kept_calls(calls: Seq<(Seq<char>, Seq<char>, Seq<char>)>) -> Seq<JsonView> {
    calls.map_values(
        |call: (Seq<char>, Seq<char>, Seq<char>)| call_json(call.0, call.1, safe_arguments(call.2)),
    )
}

/// The content of an answer: its text, with the reasoning before it in think
/// tags.
pub open spec fn answer_content(text: Seq<char>, reasoning: Seq<char>) -> JsonView {
    if reasoning.len() > 0 && text.len() > 0 {
        JsonView::Text("<think>"@ + reasoning + "</think>\n\n"@ + text)
    } else {
        content_json(text)
    }
}

/// An answer of the model, as it is kept in a conversation.
pub open spec fn answer_json(
    text: Seq<char>,
    reasoning: Seq<char>,
    calls: Seq<(Seq<char>, Seq<char>, Seq<char>)>,
) -> JsonView {
    let plain = object2(
        "role"@,
        JsonView::Text("assistant"@),
        "content"@,
        answer_content(text, reasoning),
    );
    with_calls(
        if reasoning.len() > 0 {
            with_field(plain, "reasoning_content"@, JsonView::Text(reasoning))
        } else {
            plain
        },
        kept_calls(calls),
    )
}

/// An image as a part of a message.
pub fn image_block_openai(source: &ImageSource) -> (r: Json)
    ensures
        r@ == image_part(source@),
{
    let url: String = match source {
        ImageSource::Base64 { media_type, data } => "data:".to_owned().concat(
            media_type.as_str(),
        ).concat(";base64,").concat(data.as_str()),
        ImageSource::Url { url } => url.clone(),
    };
    Json::object().with("type", Json::text("image_url")).with(
        "image_url",
        Json::object().with("url", Json::text(url.as_str())),
    )
}

/// Whether a message has an image.
fn any_image(blocks: &[ContentBlock]) -> (r: bool)
    ensures
        r == has_image(blocks_view(blocks@)),
{
    let ghost views = blocks_view(blocks@);
    let mut i: usize = 0;
    while i < blocks.len()
        invariant
            views == blocks_view(blocks@),
            i <= blocks@.len(),
            forall|j: int| 0 <= j < i ==> !((#[trigger] views[j]) is Image),
        decreases blocks@.len() - i,
    {
        assert(views[i as int] == blocks@[i as int]@);
        if let ContentBlock::Image { .. } = &blocks[i] {
            return true;
        }
        i += 1;
    }
    false
}

/// A message of the user.
pub fn build_openai_user_content(content: &[ContentBlock]) -> (r: Json)
    ensures
        r@ == user_json(blocks_view(content@)),
{
    broadcast use lemma_array_view;
    let start = Json::object().with("role", Json::text("user"));
    if !any_image(content) {
        return start.with("content", Json::Text(text_of_blocks(content)));
    }
    let ghost views = blocks_view(content@);
    let mut parts: Vec<Json> = Vec::new();
    let mut i: usize = 0;
    assert(items_view(parts@) =~= Seq::empty());
    while i < content.len()
        invariant
            views == blocks_view(content@),
            i <= content@.len(),
            items_view(parts@) == user_parts(views.take(i as int)),
        decreases content@.len() - i,
    {
        let ghost before = items_view(parts@);
        proof {
            assert(views.take(i + 1).drop_last() =~= views.take(i as int));
            assert(views.take(i + 1).last() == content@[i as int]@);
        }
        let piece: Option<Json> = match &content[i] {
            ContentBlock::Text { text } => Some(
                Json::object().with("type", Json::text("text")).with(
                    "text",
                    Json::text(text.as_str()),
                ),
            ),
            ContentBlock::Image { source } => Some(image_block_openai(source)),
            _ => None,
        };
        if let Some(piece) = piece {
            parts.push(piece);
            assert(items_view(parts@) =~= before.push(piece@));
        }
        i += 1;
    }
    assert(views.take(content@.len() as int) =~= views);
    start.with("content", Json::Array(parts))
}

/// A tool call.
fn make_call(id: &str, name: &str, arguments: &str) -> (r: Json)
    ensures
        r@ == call_json(id@, name@, arguments@),
{
    Json::object().with("id", Json::text(id)).with("type", Json::text("function")).with(
        "function",
        Json::object().with("name", Json::text(name)).with("arguments", Json::text(arguments)),
    )
}

/// A text as content.
fn make_content(text: &str) -> (r: Json)
    ensures
        r@ == content_json(text@),
{
    if text.is_empty() {
        Json::Null
    } else {
        Json::text(text)
    }
}

/// The message with the tool calls beside it, where there are any.
fn add_calls(message: Json, calls: Vec<Json>) -> (r: Json)
    ensures
        r@ == with_calls(message@, items_view(calls@)),
{
    broadcast use lemma_array_view;
    if calls.len() > 0 {
        message.with("tool_calls", Json::Array(calls))
    } else {
        message
    }
}

/// The tool calls among the blocks of a message.
fn collect_calls(blocks: &Vec<ContentBlock>) -> (r: Vec<Json>)
    ensures
        items_view(r@) == block_calls(blocks_view(blocks@)),
{
    let ghost views = blocks_view(blocks@);
    let mut calls: Vec<Json> = Vec::new();
    let mut i: usize = 0;
    assert(items_view(calls@) =~= Seq::empty());
    while i < blocks.len()
        invariant
            views == blocks_view(blocks@),
            i <= blocks@.len(),
            items_view(calls@) == block_calls(views.take(i as int)),
        decreases blocks@.len() - i,
    {
        let ghost before = items_view(calls@);
        proof {
            assert(views.take(i + 1).drop_last() =~= views.take(i as int));
            assert(views.take(i + 1).last() == blocks@[i as int]@);
        }
        if let ContentBlock::ToolUse { id, name, input } = &blocks[i] {
            let call = make_call(id.as_str(), name.as_str(), input.to_text().as_str());
            calls.push(call);
            assert(items_view(calls@) =~= before.push(call@));
        }
        i += 1;
    }
    assert(views.take(blocks@.len() as int) =~= views);
    calls
}

/// A message of the tool that was called as `id`.
fn make_tool(id: &str, content: &str) -> (r: Json)
    ensures
        r@ == tool_json(id@, content@),
{
    Json::object().with("role", Json::text("tool")).with("tool_call_id", Json::text(id)).with(
        "content",
        Json::text(content),
    )
}

/// A message, as it is sent.
pub fn to_openai_message(message: &Message) -> (r: Json)
    ensures
        r@ == openai_message(message@),
{
    match message.role {
        Role::User => build_openai_user_content(message.content.as_slice()),
        Role::Assistant => add_calls(
            Json::object().with("role", Json::text("assistant")).with(
                "content",
                make_content(message.text().as_str()),
            ),
            collect_calls(&message.content),
        ),
        Role::Tool => {
            if message.content.len() > 0 {
                assert(message@.content[0] == message.content@[0]@);
                if let ContentBlock::ToolResult { tool_use_id, content, .. } = &message.content[0] {
                    return make_tool(tool_use_id.as_str(), content.as_str());
                }
            }
            Json::object().with("role", Json::text("user")).with("content", Json::Text(message.text()))
        },
    }
}

/// An answer of the model, as it is kept in a conversation.
pub fn build_openai_raw_assistant(
    text: &str,
    reasoning: &str,
    tool_calls: &[(String, String, String)],
) -> (r: Json)
    ensures
        r@ == answer_json(text@, reasoning@, call_views(tool_calls@)),
{
    let content = if !reasoning.is_empty() && !text.is_empty() {
        Json::Text("<think>".to_owned().concat(reasoning).concat("</think>\n\n").concat(text))
    } else {
        make_content(text)
    };
    let mut message = Json::object().with("role", Json::text("assistant")).with("content", content);
    if !reasoning.is_empty() {
        message = message.with("reasoning_content", Json::text(reasoning));
    }
    let ghost calls = call_views(tool_calls@);
    let mut list: Vec<Json> = Vec::new();
    let mut i: usize = 0;
    while i < tool_calls.len()
        invariant
            calls == call_views(tool_calls@),
            i <= tool_calls@.len(),
            list@.len() == i,
            forall|k: int| 0 <= k < list@.len() ==> #[trigger] list@[k]@ == kept_calls(calls)[k],
        decreases tool_calls@.len() - i,
    {
        let (id, name, arguments) = &tool_calls[i];
        let safe: &str = match parse_json(arguments.as_str()) {
            Some(_) => arguments.as_str(),
            None => "{}",
        };
        list.push(make_call(id.as_str(), name.as_str(), safe));
        i += 1;
    }
    assert(items_view(list@) =~= kept_calls(calls));
    add_calls(message, list)
}

/// What a tool answered, with a word on how it went before it.
pub open spec fn labeled(content: Seq<char>, is_error: bool) -> Seq<char> {
    if is_error {
        "[ERROR] "@ + content
    } else {
        "[SUCCESS] "@ + content
    }
}

/// A tool's answer, as it is kept in a conversation.
pub fn build_openai_tool_result(tool_call_id: &str, content: &str, is_error: bool) -> (r: Json)
    ensures
        r@ == tool_json(tool_call_id@, labeled(content@, is_error)),
{
    let text: String = if is_error {
        join2("[ERROR] ", content)
    } else {
        join2("[SUCCESS] ", content)
    };
    make_tool(tool_call_id, text.as_str())
}

/// An API of the Chat Completions kind, as it is to be called.
#[derive(Debug)]
pub struct OpenAiCompatProvider {
    /// The address of the API, without a slash at its end.
    pub base_url: String,
    /// The model's id.
    pub model: String,
    /// The key.
    pub api_key: Option<String>,
    /// Extra parameters for the request.
    pub params: Option<Json>,
    /// Whether the model takes images.
    pub supports_images: bool,
    /// The name under which the client presents itself.
    pub user_agent: Option<String>,
}

/// A tool, as it is sent.
pub open spec fn function_json(tool: ToolView) -> JsonView {
    object2(
        "type"@,
        JsonView::Text("function"@),
        "function"@,
        with_field(
            object2(
                "name"@,
                JsonView::Text(tool.name),
                "description"@,
                JsonView::Text(tool.description),
            ),
            "parameters"@,
            tool.input_schema,
        ),
    )
}

/// The messages with the system prompt before them, where there is one.
pub open spec fn with_system(system: Seq<char>, messages: Seq<JsonView>) -> Seq<JsonView> {
    if system.len() > 0 {
        seq![
            object2("role"@, JsonView::Text("system"@), "content"@, JsonView::Text(system)),
        ] + messages
    } else {
        messages
    }
}

/// The request.
pub open spec fn chat_body(
    model: Seq<char>,
    params: Option<JsonView>,
    messages: Seq<JsonView>,
    tools: Seq<ToolView>,
    system: Seq<char>,
) -> JsonView {
    let base = with_field(
        with_field(
            object2("model"@, JsonView::Text(model), "stream"@, JsonView::Bool(true)),
            "stream_options"@,
            object1("include_usage"@, JsonView::Bool(true)),
        ),
        "messages"@,
        JsonView::Array(with_system(system, messages)),
    );
    with_params(
        if tools.len() > 0 {
            with_field(
                base,
                "tools"@,
                JsonView::Array(tools.map_values(|tool: ToolView| function_json(tool))),
            )
        } else {
            base
        },
        params,
    )
}

/// The headers that a key and a client's name add to a request.
pub open spec fn key_headers(api_key: Option<Seq<char>>, user_agent: Option<Seq<char>>) -> Seq<
    (Seq<char>, Seq<char>),
> {
    (match api_key {
        Some(key) => seq![("authorization"@, "Bearer "@ + key)],
        None => Seq::empty(),
    }) + (match user_agent {
        Some(name) => seq![("user-agent"@, name)],
        None => Seq::empty(),
    })
}

/// What a list of headers holds.
pub open spec fn headers_view(headers: Seq<(String, String)>) -> Seq<(Seq<char>, Seq<char>)> {
    headers.map_values(|header: (String, String)| (header.0@, header.1@))
}

/// The headers that a key and a client's name add to a request.
pub fn apply_headers(api_key: &Option<String>, user_agent: &Option<String>) -> (r: Vec<
    (String, String),
>)
    ensures
        headers_view(r@) == key_headers(option_text(*api_key), option_text(*user_agent)),
{
    let mut headers: Vec<(String, String)> = Vec::new();
    if let Some(key) = api_key {
        headers.push(("authorization".to_owned(), join2("Bearer ", key.as_str())));
    }
    if let Some(name) = user_agent {
        headers.push(("user-agent".to_owned(), name.clone()));
    }
    assert(headers_view(headers@) =~= key_headers(option_text(*api_key), option_text(*user_agent)));
    headers
}

impl OpenAiCompatProvider {
    /// The API at `base_url`, for the model `model`.
    pub fn new(
        base_url: &str,
        model: &str,
        api_key: Option<&str>,
        params: Option<Json>,
        supports_images: bool,
        user_agent: Option<&str>,
    ) -> (r: Self)
        ensures
            r.base_url@ == without_trailing(base_url@, '/'),
            r.model@ == model@,
            option_text(r.api_key) == option_str(api_key),
            params_view(r.params) == params_view(params),
            r.supports_images == supports_images,
            option_text(r.user_agent) == option_str(user_agent),
    {
        OpenAiCompatProvider {
            base_url: strip_trailing(base_url, '/'),
            model: model.to_owned(),
            api_key: owned(api_key),
            params,
            supports_images,
            user_agent: owned(user_agent),
        }
    }

    /// The address that requests are sent to.
    pub fn url(&self) -> (r: String)
        ensures
            r@ == self.base_url@ + "/chat/completions"@,
    {
        join2(self.base_url.as_str(), "/chat/completions")
    }

    /// The request of the messages in the form in which they are sent.
    fn body_of(&self, messages: Vec<Json>, tools: &[ToolDefinition], system: &str) -> (r: Json)
        ensures
            r@ == chat_body(
                self.model@,
                params_view(self.params),
                items_view(messages@),
                tools_view(tools@),
                system@,
            ),
    {
        broadcast use lemma_array_view;
        let ghost tail = items_view(messages@);
        let mut rest = messages;
        let mut list: Vec<Json> = Vec::new();
        if !system.is_empty() {
            list.push(
                Json::object().with("role", Json::text("system")).with(
                    "content",
                    Json::text(system),
                ),
            );
        }
        list.append(&mut rest);
        assert(items_view(list@) =~= with_system(system@, tail));
        let mut body = Json::object().with("model", Json::text(self.model.as_str())).with(
            "stream",
            Json::Bool(true),
        ).with("stream_options", Json::object().with("include_usage", Json::Bool(true))).with(
            "messages",
            Json::Array(list),
        );
        if tools.len() > 0 {
            let ghost views = tools_view(tools@);
            let mut functions: Vec<Json> = Vec::new();
            let mut i: usize = 0;
            while i < tools.len()
                invariant
                    views == tools_view(tools@),
                    i <= tools@.len(),
                    functions@.len() == i,
                    forall|k: int|
                        0 <= k < functions@.len() ==> #[trigger] functions@[k]@ == function_json(views[k]),
                decreases tools@.len() - i,
            {
                let tool = &tools[i];
                functions.push(
                    Json::object().with("type", Json::text("function")).with(
                        "function",
                        Json::object().with("name", Json::text(tool.name.as_str())).with(
                            "description",
                            Json::text(tool.description.as_str()),
                        ).with("parameters", tool.input_schema.clone()),
                    ),
                );
                i += 1;
            }
            assert(items_view(functions@) =~= views.map_values(|tool: ToolView| function_json(tool)));
            body = body.with("tools", Json::Array(functions));
        }
        merge_params(&mut body, &self.params);
        body
    }

    /// The request that sends `messages`.
    pub fn complete_body(
        &self,
        messages: &[Message],
        tools: &[ToolDefinition],
        system: &str,
    ) -> (r: Json)
        ensures
            r@ == chat_body(
                self.model@,
                params_view(self.params),
                messages@.map_values(|message: Message| openai_message(message@)),
                tools_view(tools@),
                system@,
            ),
    {
        let mut list: Vec<Json> = Vec::new();
        let mut i: usize = 0;
        while i < messages.len()
            invariant
                i <= messages@.len(),
                list@.len() == i,
                forall|k: int|
                    0 <= k < list@.len() ==> #[trigger] list@[k]@ == openai_message(messages@[k]@),
            decreases messages@.len() - i,
        {
            list.push(to_openai_message(&messages[i]));
            i += 1;
        }
        assert(items_view(list@) =~= messages@.map_values(
            |message: Message| openai_message(message@),
        ));
        self.body_of(list, tools, system)
    }

    /// The request that sends a conversation again.
    pub fn complete_raw_body(
        &self,
        raw_messages: &[Json],
        tools: &[ToolDefinition],
        system: &str,
    ) -> (r: Json)
        ensures
            r@ == chat_body(
                self.model@,
                params_view(self.params),
                repaired(sendable(items_view(raw_messages@))),
                tools_view(tools@),
                system@,
            ),
    {
        self.body_of(filter_valid_messages(raw_messages), tools, system)
    }

    /// A message of the user, as it is kept in a conversation.
    pub fn format_user_message(&self, blocks: &[ContentBlock]) -> (r: Json)
        ensures
            r@ == user_json(blocks_view(blocks@)),
    {
        build_openai_user_content(blocks)
    }

    /// A tool's answer, as it is kept in a conversation.
    pub fn format_tool_result(&self, tool_call_id: &str, content: &str, is_error: bool) -> (r: Json)
        ensures
            r@ == tool_json(tool_call_id@, labeled(content@, is_error)),
    {
        build_openai_tool_result(tool_call_id, content, is_error)
    }

    /// An answer of the model, as it is kept in a conversation.
    pub fn build_raw_assistant_message(
        &self,
        text: &str,
        reasoning: &str,
        tool_calls: &[(String, String, String)],
    ) -> (r: Json)
        ensures
            r@ == answer_json(text@, reasoning@, call_views(tool_calls@)),
    {
        build_openai_raw_assistant(text, reasoning, tool_calls)
    }
}

/// The text that the events hand out.
pub open spec fn text_of(events: Seq<EventView>) -> Seq<char>
    decreases events.len(),
{
    if events.len() == 0 {
        Seq::empty()
    } else {
        text_of(events.drop_last()) + match events.last() {
            EventView::TextDelta(s) => s,
            _ => Seq::empty(),
        }
    }
}

/// The reasoning that the events hand out.
pub open spec fn reasoning_of(events: Seq<EventView>) -> Seq<char>
    decreases events.len(),
{
    if events.len() == 0 {
        Seq::empty()
    } else {
        reasoning_of(events.drop_last()) + match events.last() {
            EventView::ReasoningDelta(s) => s,
            _ => Seq::empty(),
        }
    }
}

/// The text and the reasoning of two lists of events are joined.
pub proof fn lemma_events_concat(a: Seq<EventView>, b: Seq<EventView>)
    ensures
        text_of(a + b) == text_of(a) + text_of(b),
        reasoning_of(a + b) == reasoning_of(a) + reasoning_of(b),
    decreases b.len(),
{
    if b.len() == 0 {
        assert(a + b =~= a);
        assert(text_of(a) + text_of(b) =~= text_of(a));
        assert(reasoning_of(a) + reasoning_of(b) =~= reasoning_of(a));
    } else {
        lemma_events_concat(a, b.drop_last());
        assert((a + b).drop_last() =~= a + b.drop_last());
        assert((a + b).last() == b.last());
        assert(text_of(a + b) =~= text_of(a) + text_of(b));
        assert(reasoning_of(a + b) =~= reasoning_of(a) + reasoning_of(b));
    }
}

proof fn lemma_stretch_text(in_think: bool, s: Seq<char>)
    ensures
        text_of(stretch(in_think, s)) == (if in_think {
            Seq::empty()
        } else {
            s
        }),
        reasoning_of(stretch(in_think, s)) == (if in_think {
            s
        } else {
            Seq::empty()
        }),
{
    let events = stretch(in_think, s);
    assert(text_of(Seq::empty()) =~= Seq::<char>::empty());
    assert(reasoning_of(Seq::empty()) =~= Seq::<char>::empty());
    if s.len() == 0 {
        assert(s =~= Seq::empty());
    } else {
        assert(events.drop_last() =~= Seq::empty());
        assert(Seq::<char>::empty() + s =~= s);
        assert(Seq::<char>::empty() + Seq::<char>::empty() =~= Seq::<char>::empty());
    }
}

proof fn lemma_tag_angle(in_think: bool)
    ensures
        think_tag(in_think).len() > 0,
        think_tag(in_think)[0] == '<',
        forall|k: int| 0 < k < think_tag(in_think).len() ==> #[trigger] think_tag(in_think)[k] != '<',
{
    reveal_strlit("</think>");
    reveal_strlit("<think>");
    let tag = think_tag(in_think);
    assert forall|k: int| 0 < k < tag.len() implies #[trigger] tag[k] != '<' by {
        assert(k == 1 || k == 2 || k == 3 || k == 4 || k == 5 || k == 6 || k == 7);
    }
}

/// The place of the last `<` is the only one with its properties.
proof fn lemma_last_angle_is(text: Seq<char>, at: int)
    requires
        0 <= at <= text.len(),
        at < text.len() ==> text[at] == '<',
        forall|j: int| at < j < text.len() ==> text[j] != '<',
        at == text.len() ==> forall|j: int| 0 <= j < text.len() ==> text[j] != '<',
    ensures
        last_angle(text) == at,
{
    lemma_last_angle(text);
}

proof fn lemma_scan_strip(text: Seq<char>, in_think: bool)
    ensures
        scan_think(text, in_think, true).strip,
    decreases text.len(),
{
    let tag = think_tag(in_think);
    lemma_tag_len();
    lemma_find_from(text, tag, 0);
    if let Some(pos) = find(text, tag) {
        let rest = after(text, pos + tag.len());
        if !in_think {
            lemma_scan_strip(rest, true);
        } else if begins(rest, "\n\n"@) {
            lemma_scan_strip(after(rest, 2), false);
        } else {
            lemma_scan_strip(rest, false);
        }
    }
}

/// What the scans of two chunks, one after the other, have in common with the
/// scan of the whole.
pub open spec fn same_outcome(first: ThinkScan, second: ThinkScan, whole: ThinkScan) -> bool {
    &&& text_of(first.events) + text_of(second.events) == text_of(whole.events)
    &&& reasoning_of(first.events) + reasoning_of(second.events) == reasoning_of(whole.events)
    &&& second.in_think == whole.in_think
    &&& second.buffer == whole.buffer
    &&& second.strip == whole.strip
}

proof fn lemma_same_outcome_preceded(
    head: Seq<EventView>,
    first: ThinkScan,
    second: ThinkScan,
    whole: ThinkScan,
)
    requires
        same_outcome(first, second, whole),
    ensures
        same_outcome(preceded(head, first), second, preceded(head, whole)),
{
    lemma_events_concat(head, first.events);
    lemma_events_concat(head, whole.events);
    assert(text_of(head) + text_of(first.events) + text_of(second.events) =~= text_of(head) + (text_of(
        first.events,
    ) + text_of(second.events)));
    assert(reasoning_of(head) + reasoning_of(first.events) + reasoning_of(second.events)
        =~= reasoning_of(head) + (reasoning_of(first.events) + reasoning_of(second.events)));
}

/// Chunks without a tag in the first of them: the part that may become a tag
/// is held back, so the tag is found when it is complete.
proof fn lemma_join_without_tag(a: Seq<char>, b: Seq<char>, in_think: bool)
    requires
        find(a, think_tag(in_think)) is None,
    ensures
        ({
            let first = scan_think(a, in_think, false);
            same_outcome(
                first,
                scan_think(first.buffer + b, in_think, false),
                scan_think(a + b, in_think, false),
            )
        }),
{
    let tag = think_tag(in_think);
    let ab = a + b;
    let cut = last_angle(a);
    let first = scan_think(a, in_think, false);
    let p = a.take(cut);
    let qb = first.buffer + b;
    lemma_tag_angle(in_think);
    lemma_last_angle(a);
    lemma_find_from(a, tag, 0);
    assert(after(ab, cut) =~= qb);
    assert forall|j: int| 0 <= j < cut implies !#[trigger] crate::text::occurs_at(ab, tag, j) by {
        if crate::text::occurs_at(ab, tag, j) {
            assert(ab.subrange(j, j + tag.len())[0] == '<');
            assert(a[j] == '<');
            if j + tag.len() <= a.len() {
                assert(a.subrange(j, j + tag.len()) =~= ab.subrange(j, j + tag.len()));
                assert(crate::text::occurs_at(a, tag, j));
            } else {
                assert(cut < a.len());
                assert(ab.subrange(j, j + tag.len())[cut - j] == ab[cut]);
                assert(tag[cut - j] == '<');
            }
        }
    }
    crate::text::lemma_find_shift(ab, tag, cut);
    lemma_find_from(ab, tag, cut);
    lemma_find_from(ab, tag, 0);
    lemma_find_from(qb, tag, 0);
    assert(find(ab, tag) == crate::text::find_from(ab, tag, cut)) by {
        match crate::text::find_from(ab, tag, cut) {
            Some(i) => {
                assert forall|j: int| 0 <= j < i implies !#[trigger] crate::text::occurs_at(ab, tag, j) by {}
                crate::text::lemma_find_is(ab, tag, 0, i);
            },
            None => {
                assert forall|j: int| 0 <= j implies !#[trigger] crate::text::occurs_at(ab, tag, j) by {}
                crate::text::lemma_find_none(ab, tag, 0);
            },
        }
    }
    lemma_stretch_text(in_think, p);
    match find(qb, tag) {
        Some(k) => {
            assert(find(ab, tag) == Some(cut + k));
            let rest = after(qb, k + tag.len());
            assert(after(ab, cut + k + tag.len()) =~= rest);
            assert(ab.take(cut + k) =~= p + qb.take(k));
            lemma_stretch_text(in_think, qb.take(k));
            lemma_stretch_text(in_think, ab.take(cut + k));
            let tail = if !in_think {
                scan_think(rest, true, false)
            } else if begins(rest, "\n\n"@) {
                scan_think(after(rest, 2), false, false)
            } else {
                scan_think(rest, false, true)
            };
            lemma_events_concat(stretch(in_think, qb.take(k)), tail.events);
            lemma_events_concat(stretch(in_think, ab.take(cut + k)), tail.events);
            let second = scan_think(qb, in_think, false);
            let whole = scan_think(ab, in_think, false);
            assert(text_of(first.events) + text_of(second.events) =~= text_of(whole.events));
            assert(reasoning_of(first.events) + reasoning_of(second.events) =~= reasoning_of(
                whole.events,
            ));
        },
        None => {
            lemma_last_angle(qb);
            let k = last_angle(qb);
            assert(last_angle(ab) == cut + k) by {
                assert forall|j: int| cut + k < j < ab.len() implies ab[j] != '<' by {
                    assert(ab[j] == qb[j - cut]);
                }
                if k < qb.len() {
                    assert(ab[cut + k] == qb[k]);
                } else {
                    if cut < a.len() {
                        assert(qb[0] == '<');
                    }
                    assert forall|j: int| 0 <= j < ab.len() implies ab[j] != '<' by {
                        if j >= cut {
                            assert(ab[j] == qb[j - cut]);
                        } else {
                            assert(ab[j] == a[j]);
                        }
                    }
                }
                lemma_last_angle_is(ab, cut + k);
            }
            assert(ab.take(cut + k) =~= p + qb.take(k));
            assert(after(ab, cut + k) =~= after(qb, k));
            lemma_stretch_text(in_think, qb.take(k));
            lemma_stretch_text(in_think, ab.take(cut + k));
            let second = scan_think(qb, in_think, false);
            let whole = scan_think(ab, in_think, false);
            assert(text_of(first.events) + text_of(second.events) =~= text_of(whole.events));
            assert(reasoning_of(first.events) + reasoning_of(second.events) =~= reasoning_of(
                whole.events,
            ));
        },
    }
}

proof fn lemma_join(a: Seq<char>, b: Seq<char>, in_think: bool)
    requires
        !scan_think(a, in_think, false).strip,
    ensures
        ({
            let first = scan_think(a, in_think, false);
            same_outcome(
                first,
                scan_think(first.buffer + b, first.in_think, false),
                scan_think(a + b, in_think, false),
            )
        }),
    decreases a.len(),
{
    let tag = think_tag(in_think);
    let ab = a + b;
    lemma_tag_len();
    lemma_find_from(a, tag, 0);
    match find(a, tag) {
        None => {
            lemma_join_without_tag(a, b, in_think);
        },
        Some(pos) => {
            assert(ab.subrange(pos, pos + tag.len()) =~= a.subrange(pos, pos + tag.len()));
            assert forall|j: int| 0 <= j < pos implies !#[trigger] crate::text::occurs_at(ab, tag, j) by {
                if crate::text::occurs_at(ab, tag, j) {
                    assert(a.subrange(j, j + tag.len()) =~= ab.subrange(j, j + tag.len()));
                    assert(crate::text::occurs_at(a, tag, j));
                }
            }
            crate::text::lemma_find_is(ab, tag, 0, pos);
            let rest = after(a, pos + tag.len());
            let head = stretch(in_think, a.take(pos));
            assert(ab.take(pos) =~= a.take(pos));
            assert(after(ab, pos + tag.len()) =~= rest + b);
            if !in_think {
                lemma_join(rest, b, true);
                let first = scan_think(rest, true, false);
                lemma_same_outcome_preceded(
                    head,
                    first,
                    scan_think(first.buffer + b, first.in_think, false),
                    scan_think(rest + b, true, false),
                );
            } else if begins(rest, "\n\n"@) {
                assert((rest + b).subrange(0, 2) =~= rest.subrange(0, 2));
                assert(after(rest + b, 2) =~= after(rest, 2) + b);
                lemma_join(after(rest, 2), b, false);
                let first = scan_think(after(rest, 2), false, false);
                lemma_same_outcome_preceded(
                    head,
                    first,
                    scan_think(first.buffer + b, first.in_think, false),
                    scan_think(after(rest, 2) + b, false, false),
                );
            } else {
                lemma_scan_strip(rest, false);
            }
        },
    }
}

/// How the content is cut into chunks does not matter, tags that are cut
/// through included: two chunks hand out the same text and the same reasoning
/// as both at once, and leave the same state. (Around the separator after a
/// `</think>` the cut can matter; that is left out here.)
pub proof fn law_chunks_join(state: OpenAiView, a: Seq<char>, b: Seq<char>)
    requires
        !state.pending_strip_newlines,
        !split_scan(state, a).strip,
    ensures
        ({
            let first = split_scan(state, a);
            let second = split_scan(scanned(state, first), b);
            let whole = split_scan(state, a + b);
            &&& text_of(first.events) + text_of(second.events) == text_of(whole.events)
            &&& reasoning_of(first.events) + reasoning_of(second.events) == reasoning_of(
                whole.events,
            )
            &&& scanned(scanned(state, first), second) == scanned(state, whole)
        }),
{
    assert(state.tag_buffer + (a + b) =~= (state.tag_buffer + a) + b);
    lemma_join(state.tag_buffer + a, b, state.in_think_block);
}

/// Content without a `<` is handed out whole, at once.
pub proof fn law_plain_text_passes(state: OpenAiView, content: Seq<char>)
    requires
        state.tag_buffer.len() == 0,
        !state.pending_strip_newlines,
        forall|i: int| 0 <= i < content.len() ==> content[i] != '<',
    ensures
        split_scan(state, content).events == stretch(state.in_think_block, content),
        split_scan(state, content).buffer.len() == 0,
        split_scan(state, content).in_think == state.in_think_block,
        !split_scan(state, content).strip,
{
    assert(state.tag_buffer + content =~= content);
    lemma_scan_plain(content, state.in_think_block);
}

proof fn lemma_scan_plain(content: Seq<char>, in_think: bool)
    requires
        forall|i: int| 0 <= i < content.len() ==> content[i] != '<',
    ensures
        scan_think(content, in_think, false) == (ThinkScan {
            events: stretch(in_think, content),
            in_think,
            buffer: Seq::empty(),
            strip: false,
        }),
{
    let tag = think_tag(in_think);
    lemma_tag_angle(in_think);
    assert forall|j: int| 0 <= j implies !#[trigger] crate::text::occurs_at(content, tag, j) by {
        if crate::text::occurs_at(content, tag, j) {
            assert(content.subrange(j, j + tag.len())[0] == '<');
        }
    }
    crate::text::lemma_find_none(content, tag, 0);
    lemma_last_angle_is(content, content.len() as int);
    assert(content.take(content.len() as int) =~= content);
    assert(after(content, content.len() as int) =~= Seq::empty());
}

/// An answer whose reasoning is kept in think tags is split into the same
/// reasoning and the same text again.
pub proof fn law_kept_reasoning_splits_back(text: Seq<char>, reasoning: Seq<char>)
    requires
        text.len() > 0,
        reasoning.len() > 0,
        forall|i: int| 0 <= i < text.len() ==> text[i] != '<',
        forall|i: int| 0 <= i < reasoning.len() ==> reasoning[i] != '<',
    ensures
        scan_think(answer_content(text, reasoning)->Text_0, false, false) == (ThinkScan {
            events: seq![EventView::ReasoningDelta(reasoning), EventView::TextDelta(text)],
            in_think: false,
            buffer: Seq::empty(),
            strip: false,
        }),
{
    let content = answer_content(text, reasoning)->Text_0;
    let open = "<think>"@;
    let close = "</think>"@;
    reveal_strlit("<think>");
    reveal_strlit("</think>");
    reveal_strlit("\n\n");
    reveal_strlit("</think>\n\n");
    assert("</think>\n\n"@ =~= close + "\n\n"@);
    assert(content.subrange(0, 7) =~= open);
    crate::text::lemma_find_is(content, open, 0, 0);
    let rest = after(content, 7);
    assert(rest =~= reasoning + close + "\n\n"@ + text);
    let n = reasoning.len() as int;
    assert(rest.subrange(n, n + 8) =~= close);
    assert forall|j: int| 0 <= j < n implies !#[trigger] crate::text::occurs_at(rest, close, j) by {
        if crate::text::occurs_at(rest, close, j) {
            assert(rest.subrange(j, j + 8)[0] == '<');
            assert(rest[j] == reasoning[j]);
        }
    }
    crate::text::lemma_find_is(rest, close, 0, n);
    let tail = after(rest, n + 8);
    assert(tail =~= "\n\n"@ + text);
    assert(tail.subrange(0, 2) =~= "\n\n"@);
    assert(after(tail, 2) =~= text);
    lemma_scan_plain(text, false);
    assert(content.take(0) =~= Seq::empty());
    assert(rest.take(n) =~= reasoning);
    let last = scan_think(text, false, false);
    let middle = scan_think(rest, true, false);
    assert(middle == preceded(stretch(true, reasoning), last));
    let whole = scan_think(content, false, false);
    assert(whole == preceded(stretch(false, Seq::empty()), middle));
    assert(whole.events =~= seq![EventView::ReasoningDelta(reasoning), EventView::TextDelta(text)]);
}

/// Whether what is held back may still become a tag: it begins with `<`, holds
/// no other, and is not the tag that ends the present stretch yet.
pub open spec fn holds_back(in_think: bool, buffer: Seq<char>) -> bool {
    &&& buffer.len() > 0 ==> buffer[0] == '<'
    &&& forall|i: int| 0 < i < buffer.len() ==> buffer[i] != '<'
    &&& find(buffer, think_tag(in_think)) is None
}

/// Whether an event is a stretch that says something and does not hold the tag
/// that ends it.
pub open spec fn is_stretch(event: EventView) -> bool {
    match event {
        EventView::TextDelta(text) => text.len() > 0 && find(text, think_tag(false)) is None,
        EventView::ReasoningDelta(text) => text.len() > 0 && find(text, think_tag(true)) is None,
        _ => false,
    }
}

proof fn lemma_part_holds_no_tag(text: Seq<char>, in_think: bool, from: int, to: int)
    requires
        0 <= from <= to <= text.len(),
        forall|j: int|
            from <= j <= to - think_tag(in_think).len() ==> !#[trigger] crate::text::occurs_at(
                text,
                think_tag(in_think),
                j,
            ),
    ensures
        find(text.subrange(from, to), think_tag(in_think)) is None,
{
    let tag = think_tag(in_think);
    let shorter = text.subrange(from, to);
    lemma_tag_len();
    assert forall|j: int| 0 <= j implies !#[trigger] crate::text::occurs_at(shorter, tag, j) by {
        if crate::text::occurs_at(shorter, tag, j) {
            assert(shorter.subrange(j, j + tag.len()) =~= text.subrange(
                from + j,
                from + j + tag.len(),
            ));
            assert(crate::text::occurs_at(text, tag, from + j));
        }
    }
    crate::text::lemma_find_none(shorter, tag, 0);
}

proof fn lemma_scan_is_sound(text: Seq<char>, in_think: bool, strip: bool)
    ensures
        ({
            let scan = scan_think(text, in_think, strip);
            &&& forall|i: int| 0 <= i < scan.events.len() ==> is_stretch(#[trigger] scan.events[i])
            &&& holds_back(scan.in_think, scan.buffer)
        }),
    decreases text.len(),
{
    let tag = think_tag(in_think);
    lemma_tag_len();
    lemma_find_from(text, tag, 0);
    match find(text, tag) {
        Some(pos) => {
            let rest = after(text, pos + tag.len());
            assert(text.take(pos) =~= text.subrange(0, pos));
            lemma_part_holds_no_tag(text, in_think, 0, pos);
            if !in_think {
                lemma_scan_is_sound(rest, true, strip);
            } else if begins(rest, "\n\n"@) {
                lemma_scan_is_sound(after(rest, 2), false, strip);
            } else {
                lemma_scan_is_sound(rest, false, true);
            }
        },
        None => {
            let at = last_angle(text);
            lemma_last_angle(text);
            assert(text.take(at) =~= text.subrange(0, at));
            assert(after(text, at) =~= text.subrange(at, text.len() as int));
            lemma_part_holds_no_tag(text, in_think, 0, at);
            lemma_part_holds_no_tag(text, in_think, at, text.len() as int);
        },
    }
}

/// Whatever comes in, each stretch that is handed out says something and holds
/// no tag that would end it: no text holds `<think>`, and no reasoning
/// `</think>`. What is held back is nothing, or begins with its only `<`. Where
/// neither tag has come in, nothing is lost: what is handed out and what is held
/// back make up what was held back before and what came in. What is handed out
/// at the end, when no more can come, is such a stretch too.
pub proof fn law_stretches_hold_no_tags(state: OpenAiView, content: Seq<char>)
    ensures
        holds_back(false, Seq::empty()),
        ({
            let scan = split_scan(state, content);
            let text = state.tag_buffer + content;
            &&& forall|i: int| 0 <= i < scan.events.len() ==> is_stretch(#[trigger] scan.events[i])
            &&& holds_back(scan.in_think, scan.buffer)
            &&& find(text, think_tag(true)) is None && find(text, think_tag(false)) is None
                && !state.pending_strip_newlines ==> {
                &&& scan.in_think == state.in_think_block
                &&& text_of(scan.events) + reasoning_of(scan.events) + scan.buffer == text
            }
        }),
        holds_back(state.in_think_block, state.tag_buffer) ==> {
            &&& forall|i: int|
                0 <= i < stretch(state.in_think_block, state.tag_buffer).len() ==> is_stretch(
                    #[trigger] stretch(state.in_think_block, state.tag_buffer)[i],
                )
            &&& holds_back(state.in_think_block, Seq::empty())
        },
{
    lemma_tag_len();
    let none: Seq<char> = Seq::empty();
    lemma_part_holds_no_tag(none, true, 0, 0);
    lemma_part_holds_no_tag(none, false, 0, 0);
    assert(none.subrange(0, 0) =~= none);
    lemma_scan_is_sound(pending_text(state, content), state.in_think_block, false);
    let text = state.tag_buffer + content;
    if find(text, think_tag(true)) is None && find(text, think_tag(false)) is None
        && !state.pending_strip_newlines {
        let at = last_angle(text);
        lemma_last_angle(text);
        let head = stretch(state.in_think_block, text.take(at));
        let scan = split_scan(state, content);
        assert(scan.events == head);
        reveal_with_fuel(text_of, 2);
        reveal_with_fuel(reasoning_of, 2);
        if head.len() > 0 {
            assert(head.drop_last() =~= Seq::empty());
        }
        assert(text_of(head) + reasoning_of(head) =~= text.take(at));
        assert(text.take(at) + after(text, at) =~= text);
    }
}

/// In one chunk the start of a call comes right before the arguments of the
/// piece that brings it about, and what came before stays as it was.
pub proof fn law_start_comes_before_arguments(piece: JsonView, step: ChunkStep)
    ensures
        ({
            let call = extended_call(
                grown(step.state.tool_calls, call_index(piece) + 1)[call_index(piece) as int],
                piece,
            );
            let events = piece_step(piece, step).events;
            &&& events.take(step.events.len() as int) == step.events
            &&& starts_now(call) ==> events[step.events.len() as int] == (EventView::ToolUseStart {
                id: call.id,
                name: call.name,
            })
            &&& argument_text(piece) matches Some(more) ==> events.last()
                == EventView::ToolInputDelta(more)
            &&& events.len() <= step.events.len() + 2
        }),
{
    assert(piece_step(piece, step).events.take(step.events.len() as int) =~= step.events);
}

} // verus!
