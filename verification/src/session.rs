//! How a kept conversation is read: the text of its messages, its turns, and
//! how much of them is kept.
use crate::agent_loop::response::{arguments_json, parse_arguments};
use crate::json::{
    empty_object, fields_map, fields_view, items_view, json_as_text, lemma_array_view,
    lemma_fields_map, lemma_object_view, object2, Json, JsonView,
};
use crate::numbers::{decimal_string, decimal_text};
use crate::order::{in_order, lemma_ordered, ordered, put_name};
use crate::provider::messages::{block_answers, blocks_of, calls_of, field_is, says};
use crate::provider::openai_responses::{inner_text_or, text_or};
use crate::text::{
    begins, byte_len, chars_of, join, joined, lemma_byte_len_grows, lemma_byte_len_push,
    option_text, part, starts_with, string_of, texts, width_of,
};
use vstd::prelude::*;
use vstd::string::*;

verus! {

/// The texts of the text blocks, as far as they have any.
pub open spec fn block_texts(blocks: Seq<JsonView>) -> Seq<Seq<char>>
    decreases blocks.len(),
{
    if blocks.len() == 0 {
        Seq::empty()
    } else {
        let before = block_texts(blocks.drop_last());
        match blocks.last().text_field("text"@) {
            Some(text) => if says(blocks.last(), "type"@, "text"@) && text.len() > 0 {
                before.push(text)
            } else {
                before
            },
            None => before,
        }
    }
}

/// The text of a message: its content, or the texts of its blocks, each in a
/// line of its own.
pub open spec fn message_text(message: JsonView) -> Seq<char> {
    match message.field("content"@) {
        Some(JsonView::Text(text)) => text,
        Some(JsonView::Array(blocks)) => joined(block_texts(blocks), "\n"@),
        _ => Seq::empty(),
    }
}

/// The text of a message.
pub fn extract_message_text(message: &Json) -> (r: String)
    ensures
        r@ == message_text(message@),
{
    match message.get("content") {
        Some(content) => match content.as_str() {
            Some(text) => text.to_owned(),
            None => match content.as_array() {
                Some(blocks) => {
                    let ghost views = items_view(blocks@);
                    let mut out: Vec<String> = Vec::new();
                    let mut i: usize = 0;
                    assert(texts(out@) =~= Seq::empty());
                    while i < blocks.len()
                        invariant
                            views == items_view(blocks@),
                            i <= blocks@.len(),
                            texts(out@) == block_texts(views.take(i as int)),
                        decreases blocks@.len() - i,
                    {
                        proof {
                            assert(views.take(i + 1).drop_last() =~= views.take(i as int));
                            assert(views.take(i + 1).last() == blocks@[i as int]@);
                        }
                        let ghost before = texts(out@);
                        if let Some(text) = blocks[i].get_str("text") {
                            if field_is(&blocks[i], "type", "text") && !text.is_empty() {
                                out.push(text.to_owned());
                                assert(texts(out@) =~= before.push(text@));
                            }
                        }
                        i += 1;
                    }
                    assert(views.take(blocks@.len() as int) =~= views);
                    join(out.as_slice(), "\n")
                },
                None => String::new(),
            },
        },
        None => String::new(),
    }
}

/// Whether the message is a note on earlier tool calls, and nothing that the
/// user said.
pub open spec fn is_note(message: JsonView) -> bool {
    says(message, "role"@, "user"@) && begins(message_text(message), "[History note]"@)
}

/// Whether the message is a note on earlier tool calls.
pub fn is_history_note(message: &Json) -> (r: bool)
    ensures
        r == is_note(message@),
{
    field_is(message, "role", "user") && starts_with(
        extract_message_text(message).as_str(),
        "[History note]",
    )
}

/// Whether a turn begins with the message: the user says something.
pub open spec fn starts_turn(message: JsonView) -> bool {
    says(message, "role"@, "user"@) && message_text(message).len() > 0 && !is_note(message)
}

/// Whether a turn begins with the message.
pub fn is_turn_start(message: &Json) -> (r: bool)
    ensures
        r == starts_turn(message@),
{
    field_is(message, "role", "user") && !extract_message_text(message).as_str().is_empty()
        && !is_history_note(message)
}

/// Where the last `n` turns begin among the first `i` messages.
pub open spec fn last_turns_start(messages: Seq<JsonView>, i: int, n: nat) -> int
    decreases i,
{
    if i <= 0 {
        0
    } else if n == 0 {
        i
    } else if starts_turn(messages[i - 1]) {
        if n == 1 {
            i - 1
        } else {
            last_turns_start(messages, i - 1, (n - 1) as nat)
        }
    } else {
        last_turns_start(messages, i - 1, n)
    }
}

/// Where the last `n` turns begin; all messages belong to them where there are
/// fewer.
pub fn verbatim_start_index(messages: &[Json], n: usize) -> (r: usize)
    ensures
        r == last_turns_start(items_view(messages@), messages@.len() as int, n as nat),
        r <= messages@.len(),
{
    let ghost views = items_view(messages@);
    let total: usize = messages.len();
    if n == 0 {
        return total;
    }
    let mut i: usize = total;
    let mut wanted: usize = n;
    while i > 0
        invariant
            views == items_view(messages@),
            i <= total == messages@.len(),
            wanted > 0,
            last_turns_start(views, i as int, wanted as nat) == last_turns_start(
                views,
                total as int,
                n as nat,
            ),
        decreases i,
    {
        i -= 1;
        assert(views[i as int] == messages@[i as int]@);
        if is_turn_start(&messages[i]) {
            if wanted == 1 {
                return i;
            }
            wanted -= 1;
        }
    }
    0
}

/// A tool call in a kept message.
#[verifier::ext_equal]
pub struct MadeCall {
    /// The call's id.
    pub id: Seq<char>,
    /// The tool's name.
    pub name: Seq<char>,
    /// The arguments.
    pub input: JsonView,
}

/// A tool call that stands beside the content of a message.
pub open spec fn beside_call(call: JsonView) -> MadeCall {
    MadeCall {
        id: text_or(call, "id"@, Seq::empty()),
        name: inner_text_or(call, "function"@, "name"@, Seq::empty()),
        input: arguments_json(inner_text_or(call, "function"@, "arguments"@, Seq::empty())),
    }
}

/// The tool calls among the blocks of a message.
pub open spec fn calls_among(blocks: Seq<JsonView>) -> Seq<MadeCall>
    decreases blocks.len(),
{
    if blocks.len() == 0 {
        Seq::empty()
    } else {
        let before = calls_among(blocks.drop_last());
        let block = blocks.last();
        if says(block, "type"@, "tool_use"@) {
            before.push(
                MadeCall {
                    id: text_or(block, "id"@, Seq::empty()),
                    name: text_or(block, "name"@, Seq::empty()),
                    input: match block.field("input"@) {
                        Some(input) => input,
                        None => empty_object(),
                    },
                },
            )
        } else {
            before
        }
    }
}

/// The tool calls of a message, in either form.
pub open spec fn calls_made(message: JsonView) -> Seq<MadeCall> {
    calls_of(message).map_values(|call: JsonView| beside_call(call)) + calls_among(
        blocks_of(message),
    )
}

/// What the first of the blocks from `i` on that answers the call `id` says.
pub open spec fn block_result(blocks: Seq<JsonView>, i: int, id: Seq<char>) -> Option<Seq<char>>
    decreases blocks.len() - i,
{
    if i < 0 || i >= blocks.len() {
        None
    } else if block_answers(blocks[i], id) {
        Some(message_text(blocks[i]))
    } else {
        block_result(blocks, i + 1, id)
    }
}

/// What a message answers to the call `id`, in either form.
pub open spec fn result_in(message: JsonView, id: Seq<char>) -> Option<Seq<char>> {
    if says(message, "role"@, "tool"@) && says(message, "tool_call_id"@, id) {
        Some(message_text(message))
    } else if says(message, "role"@, "user"@) {
        block_result(blocks_of(message), 0, id)
    } else {
        None
    }
}

/// What the first of the messages from `i` on that answers the call `id` says.
pub open spec fn result_from(messages: Seq<JsonView>, i: int, id: Seq<char>) -> Option<Seq<char>>
    decreases messages.len() - i,
{
    if i < 0 || i >= messages.len() {
        None
    } else {
        match result_in(messages[i], id) {
            Some(text) => Some(text),
            None => result_from(messages, i + 1, id),
        }
    }
}

/// How many characters of arguments and of results are noted.
pub const NOTED_CHARS: usize = 500;

/// A text as far as it is noted.
pub open spec fn noted(text: Seq<char>) -> Seq<char> {
    if text.len() <= NOTED_CHARS {
        text
    } else {
        text.take(NOTED_CHARS as int) + "…"@
    }
}

/// An argument, as it is noted.
pub open spec fn argument_note(name: Seq<char>, value: JsonView) -> Seq<char> {
    name + "="@ + json_as_text(value)
}

/// The arguments of a call, as they are noted, in the order of their names.
pub open spec fn arguments_note(input: JsonView) -> Seq<char> {
    match input {
        JsonView::Object(fields) => joined(
            ordered(fields.dom()).map_values(
                |name: Seq<char>| argument_note(name, fields[name]),
            ),
            ", "@,
        ),
        _ => Seq::empty(),
    }
}

/// A call, as it is noted: what was called, and what came of it.
pub open spec fn call_note(call: MadeCall, result: Option<Seq<char>>) -> Seq<char> {
    call.name + "("@ + noted(arguments_note(call.input)) + ")"@ + match result {
        Some(text) => " → "@ + noted(text),
        None => Seq::empty(),
    }
}

/// The calls of the message at position `i`, as they are noted.
pub open spec fn call_notes(messages: Seq<JsonView>, i: int) -> Seq<Seq<char>> {
    calls_made(messages[i]).map_values(
        |call: MadeCall| call_note(call, result_from(messages, i + 1, call.id)),
    )
}

/// A turn of a conversation.
#[verifier::ext_equal]
pub struct TurnView {
    /// What the user said.
    pub said: Seq<char>,
    /// What the model answered, in several steps.
    pub texts: Seq<Seq<char>>,
    /// The notes on earlier tool calls.
    pub notes: Seq<Seq<char>>,
    /// The tool calls, as they are noted.
    pub calls: Seq<Seq<char>>,
    /// What the model answered and called, in order.
    pub steps: Seq<Seq<char>>,
}

/// A turn of a conversation.
#[derive(Debug)]
pub struct Turn {
    /// What the user said.
    pub said: String,
    /// What the model answered, in several steps.
    pub texts: Vec<String>,
    /// The notes on earlier tool calls.
    pub notes: Vec<String>,
    /// The tool calls, as they are noted.
    pub calls: Vec<String>,
    /// What the model answered and called, in order.
    pub steps: Vec<String>,
}

impl View for Turn {
    type V = TurnView;

    open spec fn view(&self) -> TurnView {
        TurnView {
            said: self.said@,
            texts: texts(self.texts@),
            notes: texts(self.notes@),
            calls: texts(self.calls@),
            steps: texts(self.steps@),
        }
    }
}

/// What turns hold.
pub open spec fn turns_view(turns: Seq<Turn>) -> Seq<TurnView> {
    turns.map_values(|turn: Turn| turn@)
}

/// A turn in which the user has said something.
pub open spec fn begun(said: Seq<char>) -> TurnView {
    TurnView {
        said,
        texts: Seq::empty(),
        notes: Seq::empty(),
        calls: Seq::empty(),
        steps: Seq::empty(),
    }
}

/// Whether anything has come of a turn. One in which the model has called tools
/// and said nothing counts too.
pub open spec fn counts(turn: TurnView) -> bool {
    turn.texts.len() > 0 || turn.notes.len() > 0 || turn.calls.len() > 0
}

/// What the model answered in a turn: lines of one text.
pub open spec fn answer_of(turn: TurnView) -> Seq<char> {
    joined(turn.texts, "\n"@)
}

/// How far a conversation has been read.
#[verifier::ext_equal]
pub struct Reading {
    /// The turns before.
    pub turns: Seq<TurnView>,
    /// The turn that goes on.
    pub open: Option<TurnView>,
}

/// The turns, once the turn that goes on is over: it is one of them where
/// anything has come of it.
pub open spec fn turns_over(reading: Reading) -> Seq<TurnView> {
    match reading.open {
        Some(turn) => if counts(turn) {
            reading.turns.push(turn)
        } else {
            reading.turns
        },
        None => reading.turns,
    }
}

/// The turn with an answer of the model: its text, where it has any, and its
/// calls.
pub open spec fn with_answer(turn: TurnView, text: Seq<char>, calls: Seq<Seq<char>>) -> TurnView {
    let said = if text.len() > 0 {
        seq![text]
    } else {
        Seq::empty()
    };
    TurnView {
        texts: turn.texts + said,
        calls: turn.calls + calls,
        steps: turn.steps + said + calls,
        ..turn
    }
}

/// What is read once the message at position `i` has been read.
pub open spec fn read_on(messages: Seq<JsonView>, i: int, reading: Reading) -> Reading {
    let message = messages[i];
    let text = message_text(message);
    if starts_turn(message) {
        Reading { turns: turns_over(reading), open: Some(begun(text)) }
    } else {
        match reading.open {
            Some(turn) => if is_note(message) {
                Reading {
                    open: Some(TurnView { notes: turn.notes.push(text), ..turn }),
                    ..reading
                }
            } else if says(message, "role"@, "assistant"@) {
                Reading {
                    open: Some(with_answer(turn, text, call_notes(messages, i))),
                    ..reading
                }
            } else {
                reading
            },
            None => reading,
        }
    }
}

/// How far the first `n` messages read.
pub open spec fn reading_of(messages: Seq<JsonView>, n: int) -> Reading
    decreases n,
{
    if n <= 0 {
        Reading { turns: Seq::empty(), open: None }
    } else {
        read_on(messages, n - 1, reading_of(messages, n - 1))
    }
}

/// The turns of a conversation.
pub open spec fn turns_in(messages: Seq<JsonView>) -> Seq<TurnView> {
    turns_over(reading_of(messages, messages.len() as int))
}

/// The string in the field `name`, or an empty one.
pub fn text_in(json: &Json, name: &str) -> (r: String)
    ensures
        r@ == text_or(json@, name@, Seq::empty()),
{
    match json.get_str(name) {
        Some(text) => text.to_owned(),
        None => String::new(),
    }
}

/// A text as far as it is noted.
fn note_of(text: &str) -> (r: String)
    ensures
        r@ == noted(text@),
{
    if text.unicode_len() <= NOTED_CHARS {
        return text.to_owned();
    }
    let head = part(text, 0, NOTED_CHARS);
    assert(head@ =~= text@.take(NOTED_CHARS as int));
    head.concat("…")
}

/// The arguments of a call, as they are noted.
fn note_arguments(input: &Json) -> (r: String)
    ensures
        r@ == arguments_note(input@),
{
    broadcast use {lemma_array_view, lemma_object_view};
    if let Json::Object(fields) = input {
        let ghost views = fields_view(fields@);
        let ghost map = fields_map(views);
        let mut names: Vec<String> = Vec::new();
        let mut i: usize = 0;
        assert(texts(names@) =~= Seq::empty());
        while i < fields.len()
            invariant
                views == fields_view(fields@),
                input@ == JsonView::Object(map),
                i <= fields@.len(),
                in_order(texts(names@)),
                forall|name: Seq<char>|
                    #[trigger] texts(names@).contains(name) <==> exists|k: int|
                        0 <= k < i && #[trigger] views[k].0 == name,
            decreases fields@.len() - i,
        {
            assert(views[i as int].0 == fields@[i as int].0@);
            let ghost before = texts(names@);
            put_name(&mut names, fields[i].0.as_str());
            assert forall|name: Seq<char>| #[trigger]
                texts(names@).contains(name) <==> exists|k: int|
                    0 <= k < i + 1 && #[trigger] views[k].0 == name by {
                if before.contains(name) {
                    let k = choose|k: int| 0 <= k < i && #[trigger] views[k].0 == name;
                    assert(views[k].0 == name);
                }
                if name == views[i as int].0 {
                    assert(views[i as int].0 == name);
                }
            }
            i += 1;
        }
        proof {
            lemma_fields_map(views);
            assert(texts(names@).to_set() =~= map.dom());
            lemma_ordered(texts(names@), map.dom());
        }
        let ghost list = texts(names@);
        let ghost entries = list.map_values(|name: Seq<char>| argument_note(name, map[name]));
        let mut out: Vec<String> = Vec::new();
        let mut k: usize = 0;
        while k < names.len()
            invariant
                list == texts(names@),
                list.to_set() == map.dom(),
                input@ == JsonView::Object(map),
                entries == list.map_values(|name: Seq<char>| argument_note(name, map[name])),
                k <= names@.len(),
                out@.len() == k,
                forall|j: int| 0 <= j < k ==> #[trigger] out@[j]@ == entries[j],
            decreases names@.len() - k,
        {
            let name = names[k].as_str();
            proof {
                assert(list[k as int] == name@);
                assert(list.contains(name@));
                assert(list.to_set().contains(name@));
            }
            let value = match input.get(name) {
                Some(value) => value.to_text(),
                None => String::new(),
            };
            let entry = name.to_owned().concat("=").concat(value.as_str());
            out.push(entry);
            k += 1;
        }
        assert(texts(out@) =~= entries);
        return join(out.as_slice(), ", ");
    }
    String::new()
}

/// What the message answers to the call `id`.
fn find_result_in(message: &Json, id: &str) -> (r: Option<String>)
    ensures
        option_text(r) == result_in(message@, id@),
{
    if field_is(message, "role", "tool") && field_is(message, "tool_call_id", id) {
        return Some(extract_message_text(message));
    }
    if !field_is(message, "role", "user") {
        return None;
    }
    if let Some(blocks) = message.get_array("content") {
        let ghost views = items_view(blocks@);
        let mut i: usize = 0;
        while i < blocks.len()
            invariant
                views == items_view(blocks@),
                result_in(message@, id@) == block_result(views, 0, id@),
                i <= blocks@.len(),
                block_result(views, i as int, id@) == block_result(views, 0, id@),
            decreases blocks@.len() - i,
        {
            assert(views[i as int] == blocks@[i as int]@);
            if field_is(&blocks[i], "type", "tool_result") && field_is(&blocks[i], "tool_use_id", id) {
                return Some(extract_message_text(&blocks[i]));
            }
            i += 1;
        }
    }
    None
}

/// What the first of the messages from `from` on that answers the call `id`
/// says.
fn find_result(messages: &[Json], from: usize, id: &str) -> (r: Option<String>)
    requires
        from <= messages@.len(),
    ensures
        option_text(r) == result_from(items_view(messages@), from as int, id@),
{
    let ghost views = items_view(messages@);
    let mut i: usize = from;
    while i < messages.len()
        invariant
            views == items_view(messages@),
            from <= i <= messages@.len(),
            result_from(views, i as int, id@) == result_from(views, from as int, id@),
        decreases messages@.len() - i,
    {
        assert(views[i as int] == messages@[i as int]@);
        if let Some(text) = find_result_in(&messages[i], id) {
            return Some(text);
        }
        i += 1;
    }
    None
}

/// A call, as it is noted.
fn note_call(messages: &[Json], i: usize, id: &str, name: &str, input: &Json) -> (r: String)
    requires
        i < messages@.len(),
    ensures
        r@ == call_note(
            MadeCall { id: id@, name: name@, input: input@ },
            result_from(items_view(messages@), i + 1, id@),
        ),
{
    let count: usize = messages.len();
    assert(i < count);
    let arguments = note_arguments(input);
    let head = name.to_owned().concat("(").concat(note_of(arguments.as_str()).as_str()).concat(")");
    match find_result(messages, i + 1, id) {
        Some(text) => head.concat(" → ").concat(note_of(text.as_str()).as_str()),
        None => {
            assert(head@ + Seq::empty() =~= head@);
            head
        },
    }
}

/// The calls of the message at position `i`, as they are noted.
fn note_calls(messages: &[Json], i: usize) -> (r: Vec<String>)
    requires
        i < messages@.len(),
    ensures
        texts(r@) == call_notes(items_view(messages@), i as int),
{
    let ghost views = items_view(messages@);
    let message = &messages[i];
    assert(views[i as int] == message@);
    let ghost to_note = |call: MadeCall| call_note(call, result_from(views, i + 1, call.id));
    let mut out: Vec<String> = Vec::new();
    let ghost beside = calls_of(message@).map_values(|call: JsonView| beside_call(call));
    assert(texts(out@) =~= beside.take(0).map_values(to_note));
    if let Some(calls) = message.get_array("tool_calls") {
        let ghost items = items_view(calls@);
        let mut k: usize = 0;
        while k < calls.len()
            invariant
                views == items_view(messages@),
                i < messages@.len(),
                items == items_view(calls@),
                items == calls_of(message@),
                to_note == (|call: MadeCall| call_note(call, result_from(views, i + 1, call.id))),
                beside == calls_of(message@).map_values(|call: JsonView| beside_call(call)),
                k <= calls@.len(),
                texts(out@) == beside.take(k as int).map_values(to_note),
            decreases calls@.len() - k,
        {
            let call = &calls[k];
            assert(items[k as int] == call@);
            let id = text_in(call, "id");
            let (name, arguments): (String, String) = match call.get("function") {
                Some(function) => (text_in(function, "name"), text_in(function, "arguments")),
                None => (String::new(), String::new()),
            };
            let input = parse_arguments(arguments.as_str());
            let ghost before = texts(out@);
            let note = note_call(messages, i, id.as_str(), name.as_str(), &input);
            out.push(note);
            proof {
                assert(beside[k as int] == beside_call(call@));
                assert(beside[k as int] =~= (MadeCall { id: id@, name: name@, input: input@ }));
                assert(beside.take(k + 1).map_values(to_note) =~= beside.take(
                    k as int,
                ).map_values(to_note).push(to_note(beside[k as int])));
                assert(texts(out@) =~= before.push(note@));
            }
            k += 1;
        }
        assert(beside.take(calls@.len() as int) =~= beside);
    } else {
        assert(beside.take(0) =~= beside);
    }
    let ghost first = beside.map_values(to_note);
    assert(texts(out@) == first);
    let ghost among = calls_among(blocks_of(message@));
    if let Some(blocks) = message.get_array("content") {
        let ghost items = items_view(blocks@);
        let mut k: usize = 0;
        assert(first + calls_among(items.take(0)).map_values(to_note) =~= first);
        while k < blocks.len()
            invariant
                views == items_view(messages@),
                i < messages@.len(),
                items == items_view(blocks@),
                to_note == (|call: MadeCall| call_note(call, result_from(views, i + 1, call.id))),
                k <= blocks@.len(),
                texts(out@) == first + calls_among(items.take(k as int)).map_values(to_note),
            decreases blocks@.len() - k,
        {
            let block = &blocks[k];
            proof {
                assert(items.take(k + 1).drop_last() =~= items.take(k as int));
                assert(items.take(k + 1).last() == block@);
            }
            if field_is(block, "type", "tool_use") {
                let id = text_in(block, "id");
                let name = text_in(block, "name");
                let input = match block.get("input") {
                    Some(input) => input.clone(),
                    None => Json::object(),
                };
                let ghost before = texts(out@);
                let note = note_call(messages, i, id.as_str(), name.as_str(), &input);
                out.push(note);
                proof {
                    let call = MadeCall { id: id@, name: name@, input: input@ };
                    let shorter = calls_among(items.take(k as int));
                    assert(calls_among(items.take(k + 1)) =~= shorter.push(call));
                    assert(shorter.push(call).map_values(to_note) =~= shorter.map_values(
                        to_note,
                    ).push(to_note(call)));
                    assert(texts(out@) =~= before.push(note@));
                }
            }
            k += 1;
        }
        assert(items.take(blocks@.len() as int) =~= items);
    } else {
        assert(first + among.map_values(to_note) =~= first);
    }
    proof {
        assert(texts(out@) == first + among.map_values(to_note));
        assert((beside + among).map_values(to_note) =~= first + among.map_values(to_note));
        assert(call_notes(views, i as int) =~= (beside + among).map_values(to_note));
    }
    out
}

/// What an optional turn holds.
pub open spec fn option_turn(turn: Option<Turn>) -> Option<TurnView> {
    match turn {
        Some(turn) => Some(turn@),
        None => None,
    }
}

/// Adds the turn to the turns, where anything has come of it.
fn close_turn(turns: &mut Vec<Turn>, open: Option<Turn>)
    ensures
        turns_view(final(turns)@) == turns_over(
            Reading { turns: turns_view(old(turns)@), open: option_turn(open) },
        ),
{
    let ghost before = turns_view(turns@);
    if let Some(turn) = open {
        if turn.texts.len() > 0 || turn.notes.len() > 0 || turn.calls.len() > 0 {
            turns.push(turn);
            assert(turns_view(turns@) =~= before.push(turn@));
        }
    }
}

/// Adds the texts to the texts.
fn push_all(to: &mut Vec<String>, more: &Vec<String>)
    ensures
        texts(final(to)@) == texts(old(to)@) + texts(more@),
{
    let ghost before = texts(to@);
    let ghost views = texts(more@);
    let mut i: usize = 0;
    assert(before + views.take(0) =~= before);
    while i < more.len()
        invariant
            views == texts(more@),
            i <= more@.len(),
            texts(to@) == before + views.take(i as int),
        decreases more@.len() - i,
    {
        let text = more[i].as_str().to_owned();
        let ghost now = texts(to@);
        to.push(text);
        proof {
            assert(views[i as int] == text@);
            assert(texts(to@) =~= now.push(text@));
            assert(now.push(text@) =~= before + views.take(i + 1));
        }
        i += 1;
    }
    assert(views.take(more@.len() as int) =~= views);
}

/// The turn with an answer of the model.
fn add_answer(turn: Turn, text: String, calls: Vec<String>) -> (r: Turn)
    ensures
        r@ == with_answer(turn@, text@, texts(calls@)),
{
    let ghost before = turn@;
    let ghost more = texts(calls@);
    let mut turn = turn;
    if !text.as_str().is_empty() {
        let copy = text.as_str().to_owned();
        turn.texts.push(copy);
        assert(texts(turn.texts@) =~= before.texts + seq![text@]);
        turn.steps.push(text);
        assert(texts(turn.steps@) =~= before.steps + seq![text@]);
    } else {
        assert(before.texts + Seq::empty() =~= before.texts);
        assert(before.steps + Seq::empty() =~= before.steps);
    }
    push_all(&mut turn.steps, &calls);
    push_all(&mut turn.calls, &calls);
    turn
}

/// The turns of a conversation.
pub fn extract_pairs(messages: &[Json]) -> (r: Vec<Turn>)
    ensures
        turns_view(r@) == turns_in(items_view(messages@)),
{
    let ghost views = items_view(messages@);
    let mut turns: Vec<Turn> = Vec::new();
    let mut open: Option<Turn> = None;
    let mut i: usize = 0;
    assert(turns_view(turns@) =~= Seq::empty());
    while i < messages.len()
        invariant
            views == items_view(messages@),
            i <= messages@.len(),
            reading_of(views, i as int) == (Reading {
                turns: turns_view(turns@),
                open: option_turn(open),
            }),
        decreases messages@.len() - i,
    {
        let message = &messages[i];
        assert(views[i as int] == message@);
        let text = extract_message_text(message);
        if is_turn_start(message) {
            close_turn(&mut turns, open);
            let turn = Turn {
                said: text,
                texts: Vec::new(),
                notes: Vec::new(),
                calls: Vec::new(),
                steps: Vec::new(),
            };
            assert(turn@ =~= begun(text@));
            open = Some(turn);
        } else {
            open =
            match open {
                Some(turn) => {
                    if is_history_note(message) {
                        let mut turn = turn;
                        let ghost before = turn@;
                        turn.notes.push(text);
                        assert(texts(turn.notes@) =~= before.notes.push(text@));
                        assert(turn@ =~= (TurnView { notes: before.notes.push(text@), ..before }));
                        Some(turn)
                    } else if field_is(message, "role", "assistant") {
                        Some(add_answer(turn, text, note_calls(messages, i)))
                    } else {
                        Some(turn)
                    }
                },
                None => None,
            };
        }
        i += 1;
    }
    close_turn(&mut turns, open);
    turns
}

/// A message of plain text.
pub open spec fn plain_message(role: Seq<char>, text: Seq<char>) -> JsonView {
    object2("role"@, JsonView::Text(role), "content"@, JsonView::Text(text))
}

/// A message of plain text.
fn make_plain(role: &str, text: &str) -> (r: Json)
    ensures
        r@ == plain_message(role@, text@),
{
    Json::object().with("role", Json::text(role)).with("content", Json::text(text))
}

/// What is noted of the calls of a turn: what was noted before, and its own
/// calls.
pub open spec fn notes_of(turn: TurnView) -> Seq<Seq<char>> {
    if turn.calls.len() > 0 {
        turn.notes.push("[History note] assistant tool calls: "@ + joined(turn.calls, ", "@))
    } else {
        turn.notes
    }
}

/// A turn as messages of plain text: what the user said, the notes where they
/// are wanted, and what the model answered.
pub open spec fn turn_messages(turn: TurnView, with_notes: bool) -> Seq<JsonView> {
    let said = seq![plain_message("user"@, turn.said)];
    let notes = if with_notes {
        notes_of(turn).map_values(|note: Seq<char>| plain_message("user"@, note))
    } else {
        Seq::empty()
    };
    let answer = if turn.texts.len() > 0 {
        seq![plain_message("assistant"@, answer_of(turn))]
    } else {
        Seq::empty()
    };
    said + notes + answer
}

/// One less, down to nothing.
pub open spec fn less_one(n: nat) -> nat {
    if n > 0 {
        (n - 1) as nat
    } else {
        0
    }
}

/// The turns as messages of plain text, the last `with_notes` of them with
/// their notes.
pub open spec fn kept_messages(turns: Seq<TurnView>, with_notes: nat) -> Seq<JsonView>
    decreases turns.len(),
{
    if turns.len() == 0 {
        Seq::empty()
    } else {
        kept_messages(turns.drop_last(), less_one(with_notes)) + turn_messages(
            turns.last(),
            with_notes > 0,
        )
    }
}

/// The last `keep` items, or all where there are fewer.
pub open spec fn last_of<T>(items: Seq<T>, keep: nat) -> Seq<T> {
    if items.len() <= keep {
        items
    } else {
        items.skip(items.len() - keep)
    }
}

/// How many turns keep their notes: all of them where nothing is said.
pub open spec fn noted_turns(note_window: Option<usize>, turns: nat) -> nat {
    match note_window {
        Some(n) => n as nat,
        None => turns,
    }
}

/// The last `keep` turns of a conversation as messages of plain text.
pub open spec fn cut_down(
    messages: Seq<JsonView>,
    keep: nat,
    note_window: Option<usize>,
) -> Seq<JsonView> {
    let kept = last_of(turns_in(messages), keep);
    kept_messages(kept, noted_turns(note_window, kept.len()))
}

proof fn lemma_kept_messages(turns: Seq<TurnView>, with_notes: nat, k: int)
    requires
        0 <= k < turns.len(),
    ensures
        ({
            let left: nat = (turns.len() - k - 1) as nat;
            let at: nat = if with_notes >= left {
                (with_notes - left) as nat
            } else {
                0
            };
            kept_messages(turns.take(k + 1), at) == kept_messages(turns.take(k), less_one(at))
                + turn_messages(turns[k], at > 0)
        }),
{
    assert(turns.take(k + 1).drop_last() =~= turns.take(k));
    assert(turns.take(k + 1).last() == turns[k]);
}

/// Appends the turn as messages of plain text.
fn push_turn(out: &mut Vec<Json>, turn: &Turn, with_notes: bool)
    ensures
        items_view(final(out)@) == items_view(old(out)@) + turn_messages(turn@, with_notes),
{
    let ghost before = items_view(out@);
    let ghost view = turn@;
    let said = make_plain("user", turn.said.as_str());
    out.push(said);
    let ghost first = before.push(said@);
    assert(items_view(out@) =~= first);
    let ghost to_message = |note: Seq<char>| plain_message("user"@, note);
    let ghost notes = if with_notes {
        notes_of(view).map_values(to_message)
    } else {
        Seq::empty()
    };
    if with_notes {
        let mut i: usize = 0;
        assert(first + view.notes.take(0).map_values(to_message) =~= first);
        while i < turn.notes.len()
            invariant
                view == turn@,
                to_message == (|note: Seq<char>| plain_message("user"@, note)),
                i <= turn.notes@.len(),
                items_view(out@) == first + view.notes.take(i as int).map_values(to_message),
            decreases turn.notes@.len() - i,
        {
            let note = make_plain("user", turn.notes[i].as_str());
            let ghost now = items_view(out@);
            out.push(note);
            proof {
                assert(view.notes[i as int] == turn.notes@[i as int]@);
                assert(view.notes.take(i + 1).map_values(to_message) =~= view.notes.take(
                    i as int,
                ).map_values(to_message).push(note@));
                assert(items_view(out@) =~= now.push(note@));
            }
            i += 1;
        }
        assert(view.notes.take(view.notes.len() as int) =~= view.notes);
        if turn.calls.len() > 0 {
            let text = "[History note] assistant tool calls: ".to_owned().concat(
                join(turn.calls.as_slice(), ", ").as_str(),
            );
            let note = make_plain("user", text.as_str());
            let ghost now = items_view(out@);
            out.push(note);
            proof {
                assert(notes_of(view) == view.notes.push(text@));
                assert(notes =~= view.notes.map_values(to_message).push(note@));
                assert(items_view(out@) =~= now.push(note@));
            }
        }
    }
    assert(items_view(out@) =~= first + notes);
    if turn.texts.len() > 0 {
        let answer = make_plain("assistant", join(turn.texts.as_slice(), "\n").as_str());
        out.push(answer);
        assert(items_view(out@) =~= (first + notes).push(answer@));
    }
    assert(items_view(out@) =~= before + turn_messages(view, with_notes));
}

/// The last `keep_pairs` turns of the conversation, as messages of plain text;
/// the last `note_window` of them, or all where it is not given, with notes on
/// their tool calls.
pub fn extract_user_assistant_pairs(
    messages: &[Json],
    keep_pairs: usize,
    note_window: Option<usize>,
) -> (r: Vec<Json>)
    ensures
        items_view(r@) == cut_down(items_view(messages@), keep_pairs as nat, note_window),
{
    let turns = extract_pairs(messages);
    let ghost views = turns_view(turns@);
    let total: usize = turns.len();
    let from: usize = if total <= keep_pairs {
        0
    } else {
        total - keep_pairs
    };
    let ghost kept = last_of(views, keep_pairs as nat);
    let count: usize = total - from;
    let with_notes: usize = match note_window {
        Some(n) => n,
        None => count,
    };
    let mut out: Vec<Json> = Vec::new();
    let mut i: usize = 0;
    assert(items_view(out@) =~= Seq::empty());
    assert(kept =~= views.skip(from as int));
    while i < count
        invariant
            views == turns_view(turns@),
            kept == views.skip(from as int),
            kept.len() == count,
            total == turns@.len(),
            count == total - from,
            from <= total,
            i <= count,
            items_view(out@) == kept_messages(
                kept.take(i as int),
                if with_notes >= count - i {
                    (with_notes - (count - i)) as nat
                } else {
                    0
                },
            ),
        decreases count - i,
    {
        proof {
            lemma_kept_messages(kept, with_notes as nat, i as int);
            assert(kept[i as int] == views[from + i]);
            assert(views[from + i] == turns@[from + i]@);
        }
        push_turn(&mut out, &turns[from + i], with_notes >= count - i);
        i += 1;
    }
    assert(kept.take(count as int) =~= kept);
    out
}

/// A turn of a conversation as a text.
pub open spec fn rendered_turn(turn: TurnView) -> Seq<char> {
    "USER: "@ + turn.said + "\n\nASSISTANT: "@ + joined(turn.steps, "\n"@)
}

/// A conversation as a text: turn by turn what was said, answered and called.
pub open spec fn rendered(messages: Seq<JsonView>) -> Seq<char> {
    joined(turns_in(messages).map_values(|turn: TurnView| rendered_turn(turn)), "\n\n"@)
}

/// A conversation as a text: turn by turn what was said, answered and called.
pub fn render_raw_context_as_text(messages: &[Json]) -> (r: String)
    ensures
        r@ == rendered(items_view(messages@)),
{
    let turns = extract_pairs(messages);
    let ghost views = turns_view(turns@);
    let ghost all = views.map_values(|turn: TurnView| rendered_turn(turn));
    let mut out: Vec<String> = Vec::new();
    let mut i: usize = 0;
    while i < turns.len()
        invariant
            views == turns_view(turns@),
            all == views.map_values(|turn: TurnView| rendered_turn(turn)),
            i <= turns@.len(),
            out@.len() == i,
            forall|k: int| 0 <= k < i ==> #[trigger] out@[k]@ == all[k],
        decreases turns@.len() - i,
    {
        let turn = &turns[i];
        assert(views[i as int] == turn@);
        out.push(
            "USER: ".to_owned().concat(turn.said.as_str()).concat("\n\nASSISTANT: ").concat(
                join(turn.steps.as_slice(), "\n").as_str(),
            ),
        );
        i += 1;
    }
    assert(texts(out@) =~= all);
    join(out.as_slice(), "\n\n")
}

/// How many characters of the text fit into `cap` bytes, of its first `n`.
pub open spec fn chars_within(s: Seq<char>, n: int, cap: nat) -> int
    decreases n,
{
    if n <= 0 || byte_len(s.take(n)) <= cap {
        n
    } else {
        chars_within(s, n - 1, cap)
    }
}

/// The text as far as it fits into `cap` bytes; where it does not, how many
/// bytes are left out follows it.
pub open spec fn cut_text(s: Seq<char>, cap: nat) -> Seq<char> {
    if byte_len(s) <= cap {
        s
    } else {
        let kept = s.take(chars_within(s, s.len() as int, cap));
        kept + "… [truncated "@ + decimal_text((byte_len(s) - byte_len(kept)) as nat) + " bytes]"@
    }
}

proof fn lemma_chars_within(s: Seq<char>, n: int, k: int, cap: nat)
    requires
        0 <= k < n <= s.len(),
        byte_len(s.take(k)) <= cap < byte_len(s.take(k + 1)),
    ensures
        chars_within(s, n, cap) == k,
    decreases n,
{
    lemma_byte_len_grows(s, k + 1, n);
    if n - 1 > k {
        lemma_chars_within(s, n - 1, k, cap);
    } else {
        assert(chars_within(s, k, cap) == k);
    }
}

/// The text as far as it fits into `cap` bytes; where it does not, how many
/// bytes are left out follows it.
pub fn truncate_text(s: &str, cap: usize) -> (r: String)
    ensures
        r@ == cut_text(s@, cap as nat),
{
    let total: usize = s.as_bytes().len();
    if total <= cap {
        return s.to_owned();
    }
    let chars = chars_of(s);
    let mut i: usize = 0;
    let mut at: usize = 0;
    assert(s@.take(s@.len() as int) =~= s@);
    assert(byte_len(s@.take(0)) == 0);
    while i < chars.len()
        invariant
            chars@ == s@,
            total == byte_len(s@) > cap,
            s@.take(s@.len() as int) == s@,
            i <= chars@.len(),
            at == byte_len(s@.take(i as int)) <= cap,
        ensures
            i < chars@.len(),
            at == byte_len(s@.take(i as int)) <= cap < byte_len(s@.take(i + 1)),
        decreases chars@.len() - i,
    {
        proof {
            lemma_byte_len_push(s@.take(i as int), s@[i as int]);
            assert(s@.take(i + 1) =~= s@.take(i as int).push(s@[i as int]));
            lemma_byte_len_grows(s@, i + 1, s@.len() as int);
        }
        let next: usize = at + width_of(chars[i]);
        if next > cap {
            break;
        }
        at = next;
        i += 1;
    }
    proof {
        lemma_chars_within(s@, s@.len() as int, i as int, cap as nat);
    }
    let head = string_of(chars.as_slice(), 0, i);
    assert(head@ =~= s@.take(i as int));
    head.concat("… [truncated ").concat(decimal_string((total - at) as u64).as_str()).concat(
        " bytes]",
    )
}

/// What is kept of a text that is cut is its beginning, and fits.
pub proof fn law_cut_text_fits(s: Seq<char>, cap: nat)
    ensures
        0 <= chars_within(s, s.len() as int, cap) <= s.len(),
        byte_len(s.take(chars_within(s, s.len() as int, cap))) <= cap,
        byte_len(s) <= cap ==> cut_text(s, cap) == s,
        byte_len(s) > cap ==> begins(
            cut_text(s, cap),
            s.take(chars_within(s, s.len() as int, cap)),
        ),
{
    lemma_within(s, s.len() as int, cap);
    let kept = s.take(chars_within(s, s.len() as int, cap));
    if byte_len(s) > cap {
        assert(cut_text(s, cap).subrange(0, kept.len() as int) =~= kept);
    }
}

proof fn lemma_within(s: Seq<char>, n: int, cap: nat)
    requires
        0 <= n <= s.len(),
    ensures
        0 <= chars_within(s, n, cap) <= n,
        byte_len(s.take(chars_within(s, n, cap))) <= cap,
    decreases n,
{
    if n > 0 && byte_len(s.take(n)) > cap {
        lemma_within(s, n - 1, cap);
    }
}

/// Whether the turn is one of a conversation: the user has said something that
/// is no note, what is kept as a note is one, and something has come of it all.
pub open spec fn is_turn(turn: TurnView) -> bool {
    &&& turn.said.len() > 0 && !begins(turn.said, "[History note]"@)
    &&& forall|i: int|
        0 <= i < turn.notes.len() ==> begins(#[trigger] turn.notes[i], "[History note]"@)
    &&& forall|i: int| 0 <= i < turn.texts.len() ==> (#[trigger] turn.texts[i]).len() > 0
}

proof fn lemma_reading_is_of_turns(messages: Seq<JsonView>, n: int)
    requires
        0 <= n <= messages.len(),
    ensures
        ({
            let reading = reading_of(messages, n);
            &&& forall|i: int|
                0 <= i < reading.turns.len() ==> is_turn(#[trigger] reading.turns[i]) && counts(
                    reading.turns[i],
                )
            &&& reading.open matches Some(turn) ==> is_turn(turn)
        }),
    decreases n,
{
    if n > 0 {
        lemma_reading_is_of_turns(messages, n - 1);
        let before = reading_of(messages, n - 1);
        let after = reading_of(messages, n);
        let text = message_text(messages[n - 1]);
        if let Some(turn) = after.open {
            if !starts_turn(messages[n - 1]) {
                let old_turn = before.open->0;
                assert forall|i: int| 0 <= i < turn.texts.len() implies (
                #[trigger] turn.texts[i]).len() > 0 by {
                    if i < old_turn.texts.len() {
                        assert(turn.texts[i] == old_turn.texts[i]);
                    }
                }
                assert forall|i: int| 0 <= i < turn.notes.len() implies begins(
                    #[trigger] turn.notes[i],
                    "[History note]"@,
                ) by {
                    if i < old_turn.notes.len() {
                        assert(turn.notes[i] == old_turn.notes[i]);
                    }
                }
            }
        }
    }
}

/// The turns of a conversation are turns.
pub proof fn lemma_turns_in(messages: Seq<JsonView>, i: int)
    requires
        0 <= i < turns_in(messages).len(),
    ensures
        is_turn(turns_in(messages)[i]),
        counts(turns_in(messages)[i]),
{
    lemma_reading_is_of_turns(messages, messages.len() as int);
    let reading = reading_of(messages, messages.len() as int);
    if i < reading.turns.len() {
        assert(turns_in(messages)[i] == reading.turns[i]);
    }
}

/// What is joined is not empty where its parts are not.
pub proof fn lemma_joined_says(parts: Seq<Seq<char>>, separator: Seq<char>)
    requires
        parts.len() > 0,
        parts.last().len() > 0,
    ensures
        joined(parts, separator).len() > 0,
{
}

/// A message of plain text has its role and its text, and calls no tool.
pub proof fn lemma_plain_message(role: Seq<char>, text: Seq<char>)
    ensures
        says(plain_message(role, text), "role"@, role),
        message_text(plain_message(role, text)) == text,
        calls_made(plain_message(role, text)).len() == 0,
{
    reveal_strlit("role");
    reveal_strlit("content");
    reveal_strlit("tool_calls");
    assert("role"@.len() == 4 && "content"@.len() == 7 && "tool_calls"@.len() == 10);
    assert(plain_message(role, text).field("content"@) == Some(JsonView::Text(text)));
    assert(plain_message(role, text).array_field("tool_calls"@) is None);
    assert(plain_message(role, text).array_field("content"@) is None);
}

/// A turn as it is read again once it has been kept: its calls have become a
/// note.
pub open spec fn kept_turn(turn: TurnView) -> TurnView {
    let answer = if turn.texts.len() > 0 {
        seq![answer_of(turn)]
    } else {
        Seq::empty()
    };
    TurnView {
        said: turn.said,
        texts: answer,
        notes: notes_of(turn),
        calls: Seq::empty(),
        steps: answer,
    }
}

proof fn lemma_note_text(calls: Seq<Seq<char>>)
    ensures
        begins(
            "[History note] assistant tool calls: "@ + joined(calls, ", "@),
            "[History note]"@,
        ),
{
    reveal_strlit("[History note] assistant tool calls: ");
    reveal_strlit("[History note]");
    let text = "[History note] assistant tool calls: "@ + joined(calls, ", "@);
    assert(text.subrange(0, "[History note]"@.len() as int) =~= "[History note]"@);
}

proof fn lemma_read_note(messages: Seq<JsonView>, n: int, turn: TurnView, note: Seq<char>)
    requires
        0 <= n < messages.len(),
        messages[n] == plain_message("user"@, note),
        begins(note, "[History note]"@),
        reading_of(messages, n).open == Some(turn),
    ensures
        reading_of(messages, n + 1) == (Reading {
            open: Some(TurnView { notes: turn.notes.push(note), ..turn }),
            ..reading_of(messages, n)
        }),
{
    lemma_plain_message("user"@, note);
}

proof fn lemma_read_notes(messages: Seq<JsonView>, n: int, turn: TurnView, notes: Seq<Seq<char>>)
    requires
        0 <= n,
        n + notes.len() <= messages.len(),
        forall|i: int|
            0 <= i < notes.len() ==> messages[n + i] == plain_message(
                "user"@,
                #[trigger] notes[i],
            ),
        forall|i: int| 0 <= i < notes.len() ==> begins(#[trigger] notes[i], "[History note]"@),
        reading_of(messages, n).open == Some(turn),
    ensures
        reading_of(messages, n + notes.len()) == (Reading {
            open: Some(TurnView { notes: turn.notes + notes, ..turn }),
            ..reading_of(messages, n)
        }),
    decreases notes.len(),
{
    if notes.len() == 0 {
        assert(turn.notes + notes =~= turn.notes);
    } else {
        let rest = notes.drop_last();
        assert forall|i: int| 0 <= i < rest.len() implies messages[n + i] == plain_message(
            "user"@,
            #[trigger] rest[i],
        ) && begins(rest[i], "[History note]"@) by {
            assert(rest[i] == notes[i]);
        }
        lemma_read_notes(messages, n, turn, rest);
        assert(notes[notes.len() - 1] == notes.last());
        let so_far = TurnView { notes: turn.notes + rest, ..turn };
        lemma_read_note(messages, n + rest.len(), so_far, notes.last());
        assert((turn.notes + rest).push(notes.last()) =~= turn.notes + notes);
    }
}

/// A turn that was kept is read again as it was kept.
proof fn lemma_read_turn(messages: Seq<JsonView>, n: int, turn: TurnView)
    requires
        is_turn(turn),
        0 <= n,
        n + turn_messages(turn, true).len() <= messages.len(),
        messages.subrange(n, n + turn_messages(turn, true).len()) == turn_messages(turn, true),
    ensures
        reading_of(messages, n + turn_messages(turn, true).len()) == (Reading {
            turns: turns_over(reading_of(messages, n)),
            open: Some(kept_turn(turn)),
        }),
{
    reveal_strlit("user");
    reveal_strlit("assistant");
    assert("user"@.len() != "assistant"@.len());
    let kept = turn_messages(turn, true);
    let notes = notes_of(turn);
    assert(messages[n] == messages.subrange(n, n + kept.len())[0]);
    lemma_plain_message("user"@, turn.said);
    assert(starts_turn(messages[n]));
    let first = begun(turn.said);
    assert(reading_of(messages, n + 1) == (Reading {
        turns: turns_over(reading_of(messages, n)),
        open: Some(first),
    }));
    assert forall|i: int| 0 <= i < notes.len() implies messages[n + 1 + i] == plain_message(
        "user"@,
        #[trigger] notes[i],
    ) && begins(notes[i], "[History note]"@) by {
        assert(messages.subrange(n, n + kept.len())[1 + i] == messages[n + 1 + i]);
        assert(kept[1 + i] == plain_message("user"@, notes[i]));
        if i < turn.notes.len() {
            assert(notes[i] == turn.notes[i]);
        } else {
            lemma_note_text(turn.calls);
        }
    }
    lemma_read_notes(messages, n + 1, first, notes);
    assert(first.notes + notes =~= notes);
    if turn.texts.len() > 0 {
        let at = n + 1 + notes.len();
        assert(messages.subrange(n, n + kept.len())[1 + notes.len() as int] == messages[at]);
        let text = answer_of(turn);
        lemma_plain_message("assistant"@, text);
        assert(turn.texts[turn.texts.len() - 1].len() > 0);
        lemma_joined_says(turn.texts, "\n"@);
        assert(call_notes(messages, at) =~= Seq::empty());
        let so_far = TurnView { notes, ..first };
        assert(with_answer(so_far, text, Seq::empty()) =~= kept_turn(turn));
        assert(!starts_turn(messages[at]));
        assert(!is_note(messages[at]));
    } else {
        assert((TurnView { notes, ..first }) =~= kept_turn(turn));
    }
}

proof fn lemma_kept_turn_counts(turn: TurnView)
    requires
        counts(turn),
    ensures
        counts(kept_turn(turn)),
        turn_messages(kept_turn(turn), true) == turn_messages(turn, true),
{
    let again = kept_turn(turn);
    if turn.texts.len() > 0 {
        assert(answer_of(again) =~= answer_of(turn));
    }
    assert(turn_messages(again, true) =~= turn_messages(turn, true));
}

proof fn lemma_read_kept(messages: Seq<JsonView>, turns: Seq<TurnView>)
    requires
        forall|i: int| 0 <= i < turns.len() ==> is_turn(#[trigger] turns[i]) && counts(turns[i]),
        kept_messages(turns, turns.len()).len() <= messages.len(),
        messages.take(kept_messages(turns, turns.len()).len() as int) == kept_messages(
            turns,
            turns.len(),
        ),
    ensures
        turns_over(reading_of(messages, kept_messages(turns, turns.len()).len() as int))
            == turns.map_values(|turn: TurnView| kept_turn(turn)),
    decreases turns.len(),
{
    let to_kept = |turn: TurnView| kept_turn(turn);
    if turns.len() == 0 {
        assert(turns.map_values(to_kept) =~= Seq::empty());
    } else {
        let rest = turns.drop_last();
        let before = kept_messages(rest, rest.len());
        let last = turn_messages(turns.last(), true);
        let all = kept_messages(turns, turns.len());
        assert(all == before + last);
        assert(messages.take(before.len() as int) =~= all.take(before.len() as int));
        assert(all.take(before.len() as int) =~= before);
        assert forall|i: int| 0 <= i < rest.len() implies is_turn(#[trigger] rest[i]) && counts(
            rest[i],
        ) by {
            assert(rest[i] == turns[i]);
        }
        lemma_read_kept(messages, rest);
        assert(is_turn(turns[turns.len() - 1]) && counts(turns[turns.len() - 1]));
        assert(messages.subrange(before.len() as int, (before.len() + last.len()) as int) =~= last) by {
            assert forall|i: int| 0 <= i < last.len() implies messages[before.len() + i]
                == last[i] by {
                assert(messages.take(all.len() as int)[before.len() + i] == all[before.len() + i]);
            }
        }
        lemma_read_turn(messages, before.len() as int, turns.last());
        lemma_kept_turn_counts(turns.last());
        assert(turns.map_values(to_kept) =~= rest.map_values(to_kept).push(
            kept_turn(turns.last()),
        ));
    }
}

proof fn lemma_kept_again(turns: Seq<TurnView>)
    requires
        forall|i: int| 0 <= i < turns.len() ==> counts(#[trigger] turns[i]),
    ensures
        kept_messages(turns.map_values(|turn: TurnView| kept_turn(turn)), turns.len())
            == kept_messages(turns, turns.len()),
    decreases turns.len(),
{
    let to_kept = |turn: TurnView| kept_turn(turn);
    if turns.len() > 0 {
        assert forall|i: int| 0 <= i < turns.drop_last().len() implies counts(
            #[trigger] turns.drop_last()[i],
        ) by {
            assert(turns.drop_last()[i] == turns[i]);
        }
        lemma_kept_again(turns.drop_last());
        assert(turns.map_values(to_kept).drop_last() =~= turns.drop_last().map_values(to_kept));
        assert(counts(turns[turns.len() - 1]));
        lemma_kept_turn_counts(turns.last());
    }
}

/// A conversation that was cut down to its last `keep` turns, with notes on all
/// of them, holds no more turns than these, and cutting it down again changes
/// nothing: no note is lost.
pub proof fn law_cutting_down_is_final(messages: Seq<JsonView>, keep: nat)
    ensures
        ({
            let kept = cut_down(messages, keep, None);
            &&& turns_in(kept).len() <= keep
            &&& cut_down(kept, keep, None) == kept
        }),
{
    let all = turns_in(messages);
    let turns = last_of(all, keep);
    assert forall|i: int| 0 <= i < turns.len() implies is_turn(#[trigger] turns[i]) && counts(
        turns[i],
    ) by {
        if all.len() > keep {
            assert(turns[i] == all[i + all.len() - keep]);
            lemma_turns_in(messages, i + all.len() - keep);
        } else {
            lemma_turns_in(messages, i);
        }
    }
    let kept = cut_down(messages, keep, None);
    assert(kept.take(kept.len() as int) =~= kept);
    lemma_read_kept(kept, turns);
    lemma_kept_again(turns);
}

/// Every tool call of a turn that is kept with its notes is told of in a note,
/// and no note on earlier calls is lost.
pub proof fn law_notes_are_kept(turn: TurnView, i: int)
    ensures
        0 <= i < turn.notes.len() ==> turn_messages(turn, true).contains(
            plain_message("user"@, turn.notes[i]),
        ),
        turn.calls.len() > 0 ==> turn_messages(turn, true).contains(
            plain_message(
                "user"@,
                "[History note] assistant tool calls: "@ + joined(turn.calls, ", "@),
            ),
        ),
{
    let notes = notes_of(turn);
    let all = turn_messages(turn, true);
    if 0 <= i < turn.notes.len() {
        assert(notes[i] == turn.notes[i]);
        assert(all[1 + i] == plain_message("user"@, notes[i]));
    }
    if turn.calls.len() > 0 {
        let last = notes.len() - 1;
        assert(all[1 + last] == plain_message("user"@, notes[last]));
    }
}

} // verus!
