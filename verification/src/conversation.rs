//! What a conversation says that was kept as it was sent.
use crate::agent_loop::context::{
    all_cleaned, capped, capped_block, cleaned, only_text, turn_history,
};
use crate::agent_loop::response::arguments_json;
use crate::agent_loop::window::{answers_in, what_they_say};
use crate::json::{json_as_text, JsonView};
use crate::numbers::decimal_text;
use crate::order::ordered;
use crate::provider::select::ApiKind;
use crate::provider::wire::{
    law_answer_is_kept_whole, law_one_text_is_sent_as_it_is, law_what_the_user_says_is_sent_whole,
    said_blocks,
};
use crate::provider::messages::{blocks_of, calls_of, says};
use crate::session::{
    arguments_note, block_result, block_texts, call_note, call_notes, calls_among, calls_made,
    chars_within, counts, cut_down, cut_text, is_note, kept_messages, last_of, less_one,
    message_text, noted, notes_of, plain_message, reading_of, rendered, rendered_turn, result_from,
    result_in, starts_turn, turn_messages, turns_in, MadeCall, Reading, TurnView,
};
use crate::text::{begins, byte_len, joined};
use crate::types::{BlockView, MessageView, Role};
use vstd::prelude::*;
use vstd::string::*;

verus! {

/// The text of a block, where it is a text block that says something.
pub open spec fn text_in_block(block: JsonView) -> Option<Seq<char>> {
    match block.field("text"@) {
        Some(JsonView::Text(text)) => if block.field("type"@) == Some(JsonView::Text("text"@))
            && text.len() > 0 {
            Some(text)
        } else {
            None
        },
        _ => None,
    }
}

/// The text of a message is its content, or the texts of all its text blocks, in
/// order and each in a line of its own; any other content has none.
pub proof fn law_message_says_all_its_texts(message: JsonView)
    ensures
        match message.field("content"@) {
            Some(JsonView::Text(text)) => message_text(message) == text,
            Some(JsonView::Array(blocks)) => message_text(message) == joined(
                blocks.filter_map(|block: JsonView| text_in_block(block)),
                "\n"@,
            ),
            _ => message_text(message).len() == 0,
        },
{
    if let Some(JsonView::Array(blocks)) = message.field("content"@) {
        lemma_block_texts(blocks);
    }
}

proof fn lemma_block_texts(blocks: Seq<JsonView>)
    ensures
        block_texts(blocks) == blocks.filter_map(|block: JsonView| text_in_block(block)),
    decreases blocks.len(),
{
    let told = |block: JsonView| text_in_block(block);
    if blocks.len() > 0 {
        let rest = blocks.drop_last();
        lemma_block_texts(rest);
        if let Some(text) = text_in_block(blocks.last()) {
            assert(rest.filter_map(told).push(text) =~= rest.filter_map(told) + seq![text]);
        }
    } else {
        assert(block_texts(blocks) =~= blocks.filter_map(told));
    }
}

/// A turn begins exactly with a message of the user that says something which is
/// no note on earlier calls; notes are the user's messages that are marked so.
pub proof fn law_turns_begin_with_the_user(message: JsonView)
    ensures
        starts_turn(message) <==> message.field("role"@) == Some(JsonView::Text("user"@))
            && message_text(message).len() > 0 && !begins(
            message_text(message),
            "[History note]"@,
        ),
        is_note(message) <==> message.field("role"@) == Some(JsonView::Text("user"@)) && begins(
            message_text(message),
            "[History note]"@,
        ),
        !(starts_turn(message) && is_note(message)),
{
}

/// The notes that the messages of the model leave on their calls.
pub open spec fn calls_noted(messages: Seq<JsonView>, n: int) -> Seq<Seq<char>>
    decreases n,
{
    if n <= 0 {
        Seq::empty()
    } else {
        calls_noted(messages, n - 1) + (if messages[n - 1].field("role"@) == Some(
            JsonView::Text("assistant"@),
        ) {
            call_notes(messages, n - 1)
        } else {
            Seq::empty()
        })
    }
}

/// What the model says and calls, message by message.
pub open spec fn steps_taken(messages: Seq<JsonView>, n: int) -> Seq<Seq<char>>
    decreases n,
{
    if n <= 0 {
        Seq::empty()
    } else {
        steps_taken(messages, n - 1) + (if messages[n - 1].field("role"@) == Some(
            JsonView::Text("assistant"@),
        ) {
            (if message_text(messages[n - 1]).len() > 0 {
                seq![message_text(messages[n - 1])]
            } else {
                Seq::empty()
            }) + call_notes(messages, n - 1)
        } else {
            Seq::empty()
        })
    }
}

/// A turn holds the notes on earlier calls that come with it, all calls of the
/// model and all its steps, in order; it counts wherever it holds an answer, a
/// note or a call.
pub proof fn law_turn_holds_its_calls(messages: Seq<JsonView>)
    requires
        messages.len() > 0,
        starts_turn(messages[0]),
        forall|i: int| 0 < i < messages.len() ==> !starts_turn(#[trigger] messages[i]),
    ensures
        ({
            let turns = turns_in(messages);
            let n = messages.len() as int;
            let notes = what_they_say(messages.filter(|message: JsonView| is_note(message)));
            &&& turns.len() == 1 <==> answers_in(messages).len() > 0 || notes.len() > 0
                || calls_noted(messages, n).len() > 0
            &&& turns.len() == 1 ==> {
                &&& turns[0].notes == notes
                &&& turns[0].calls == calls_noted(messages, n)
                &&& turns[0].steps == steps_taken(messages, n)
            }
        }),
{
    let n = messages.len() as int;
    crate::agent_loop::window::law_turn_holds_its_answers(messages);
    lemma_open_turn(messages, n);
    assert(messages.take(n) =~= messages);
    let turn = reading_of(messages, n).open->0;
    assert(what_they_say(answers_in(messages)).len() == answers_in(messages).len());
}

proof fn lemma_open_turn(messages: Seq<JsonView>, n: int)
    requires
        0 < n <= messages.len(),
        starts_turn(messages[0]),
        forall|i: int| 0 < i < messages.len() ==> !starts_turn(#[trigger] messages[i]),
    ensures
        ({
            let reading = reading_of(messages, n);
            let notes = what_they_say(messages.take(n).filter(|message: JsonView| is_note(message)));
            &&& reading.turns.len() == 0
            &&& reading.open is Some
            &&& (reading.open->0).texts == what_they_say(answers_in(messages.take(n)))
            &&& (reading.open->0).notes == notes
            &&& (reading.open->0).calls == calls_noted(messages, n)
            &&& (reading.open->0).steps == steps_taken(messages, n)
        }),
    decreases n,
{
    reveal(Seq::filter);
    reveal_strlit("assistant");
    reveal_strlit("user");
    assert("assistant"@.len() == 9 && "user"@.len() == 4);
    let head = messages.take(n);
    let message = messages[n - 1];
    let marks = |message: JsonView| is_note(message);
    assert(head.drop_last() =~= messages.take(n - 1));
    assert(head.last() == message);
    if n == 1 {
        assert(reading_of(messages, 0) == (Reading { turns: Seq::empty(), open: None }));
        assert(head.drop_last().len() == 0);
        assert(says(message, "role"@, "user"@));
        assert(message.field("role"@) == Some(JsonView::Text("user"@)));
        assert(answers_in(head.drop_last()).len() == 0);
        assert(answers_in(head).len() == 0);
        assert(what_they_say(answers_in(head)) =~= Seq::<Seq<char>>::empty());
        assert(head.drop_last().filter(marks).len() == 0);
        assert(head.filter(marks).len() == 0);
        assert(what_they_say(head.filter(marks)) =~= Seq::<Seq<char>>::empty());
        assert(calls_noted(messages, 0) =~= Seq::<Seq<char>>::empty());
        assert(calls_noted(messages, 1) =~= Seq::<Seq<char>>::empty());
        assert(steps_taken(messages, 0) =~= Seq::<Seq<char>>::empty());
        assert(steps_taken(messages, 1) =~= Seq::<Seq<char>>::empty());
    } else {
        lemma_open_turn(messages, n - 1);
        let before = answers_in(messages.take(n - 1));
        let earlier = messages.take(n - 1).filter(marks);
        let turn = reading_of(messages, n - 1).open->0;
        let text = message_text(message);
        let none = Seq::<Seq<char>>::empty();
        assert(turn.texts + none =~= turn.texts);
        assert(turn.calls + none =~= turn.calls);
        assert(turn.steps + none =~= turn.steps);
        if message.field("role"@) == Some(JsonView::Text("assistant"@)) {
            assert(says(message, "role"@, "assistant"@));
            assert(!says(message, "role"@, "user"@));
            assert(!is_note(message));
            let notes = call_notes(messages, n - 1);
            if text.len() > 0 {
                assert(what_they_say(before.push(message)) =~= what_they_say(before) + seq![text]);
            }
            let said = if text.len() > 0 {
                seq![text]
            } else {
                none
            };
            assert(turn.steps + said + notes =~= turn.steps + (said + notes));
        } else {
            assert(!says(message, "role"@, "assistant"@));
            if is_note(message) {
                assert(what_they_say(earlier.push(message)) =~= what_they_say(earlier).push(text));
            }
        }
    }
}

/// A conversation that is cut down holds its last turns, as many as are asked
/// for or as there are, in plain text and in order; the last of them with their
/// notes, as many as are asked for, or all.
pub proof fn law_last_turns_are_kept(
    messages: Seq<JsonView>,
    keep: nat,
    note_window: Option<usize>,
)
    ensures
        ({
            let all = turns_in(messages);
            let first: int = if all.len() > keep {
                all.len() - keep
            } else {
                0
            };
            let kept = all.skip(first);
            let plain: int = match note_window {
                Some(n) => if kept.len() > n {
                    kept.len() - n
                } else {
                    0
                },
                None => 0,
            };
            cut_down(messages, keep, note_window) == Seq::new(
                kept.len(),
                |i: int| turn_messages(kept[i], i >= plain),
            ).flatten_alt()
        }),
{
    let all = turns_in(messages);
    let first: int = if all.len() > keep {
        all.len() - keep
    } else {
        0
    };
    let kept = all.skip(first);
    assert(last_of(all, keep) =~= kept);
    let noted: nat = match note_window {
        Some(n) => n as nat,
        None => kept.len(),
    };
    lemma_kept_messages(kept, noted);
    let plain: int = if kept.len() > noted {
        kept.len() - noted
    } else {
        0
    };
    assert(Seq::new(kept.len(), |i: int| turn_messages(kept[i], i >= kept.len() - noted))
        =~= Seq::new(kept.len(), |i: int| turn_messages(kept[i], i >= plain)));
}

proof fn lemma_kept_messages(turns: Seq<TurnView>, with_notes: nat)
    ensures
        kept_messages(turns, with_notes) == Seq::new(
            turns.len(),
            |i: int| turn_messages(turns[i], i >= turns.len() - with_notes),
        ).flatten_alt(),
    decreases turns.len(),
{
    let parts = Seq::new(
        turns.len(),
        |i: int| turn_messages(turns[i], i >= turns.len() - with_notes),
    );
    if turns.len() > 0 {
        let rest = turns.drop_last();
        let less = less_one(with_notes);
        lemma_kept_messages(rest, less);
        assert(parts.drop_last() =~= Seq::new(
            rest.len(),
            |i: int| turn_messages(rest[i], i >= rest.len() - less),
        ));
        assert(parts.last() == turn_messages(turns.last(), with_notes > 0));
    }
}

/// Whether the message is one of plain text.
pub open spec fn is_plain(message: JsonView, role: Seq<char>, text: Seq<char>) -> bool {
    message.field("role"@) == Some(JsonView::Text(role)) && message.field("content"@) == Some(
        JsonView::Text(text),
    )
}

/// The notes of a turn, where they are wanted.
pub open spec fn wanted_notes(turn: TurnView, wanted: bool) -> Seq<Seq<char>> {
    if wanted {
        notes_of(turn)
    } else {
        Seq::empty()
    }
}

/// A turn in plain text is what the user said, behind it its notes, where they
/// are wanted, and last what the model answered, all steps of it in one text, where
/// it answered anything.
pub proof fn law_turn_in_plain_text(turn: TurnView, with_notes: bool)
    ensures
        ({
            let messages = turn_messages(turn, with_notes);
            let notes = wanted_notes(turn, with_notes);
            &&& messages.len() == 1 + notes.len() + (if turn.texts.len() > 0 {
                1nat
            } else {
                0nat
            })
            &&& is_plain(messages[0], "user"@, turn.said)
            &&& forall|i: int|
                #![trigger notes[i]]
                0 <= i < notes.len() ==> is_plain(messages[1 + i], "user"@, notes[i])
            &&& turn.texts.len() > 0 ==> is_plain(
                messages.last(),
                "assistant"@,
                joined(turn.texts, "\n"@),
            )
            &&& notes_of(turn) == if turn.calls.len() > 0 {
                turn.notes.push(
                    "[History note] assistant tool calls: "@ + joined(turn.calls, ", "@),
                )
            } else {
                turn.notes
            }
        }),
{
    reveal_strlit("role");
    reveal_strlit("content");
    assert("role"@.len() == 4 && "content"@.len() == 7);
    let messages = turn_messages(turn, with_notes);
    let notes = wanted_notes(turn, with_notes);
    assert forall|i: int| #![trigger notes[i]] 0 <= i < notes.len() implies is_plain(
        messages[1 + i],
        "user"@,
        notes[i],
    ) by {
        assert(messages[1 + i] == plain_message("user"@, notes[i]));
    }
}

/// A turn as messages: what the user said, and what the model answered.
pub open spec fn turn_as_messages(turn: TurnView) -> Seq<MessageView> {
    let said = MessageView {
        role: Role::User,
        content: seq![BlockView::Text { text: turn.said }],
    };
    let answer = MessageView {
        role: Role::Assistant,
        content: seq![BlockView::Text { text: joined(turn.texts, "\n"@) }],
    };
    if turn.texts.len() > 0 {
        seq![said, answer]
    } else {
        seq![said]
    }
}

/// A conversation as messages is, turn by turn, what the user said and what the
/// model answered, where it answered anything.
pub proof fn law_history_is_turn_by_turn(turns: Seq<TurnView>)
    ensures
        turn_history(turns) == turns.map_values(
            |turn: TurnView| turn_as_messages(turn),
        ).flatten_alt(),
    decreases turns.len(),
{
    let to_messages = |turn: TurnView| turn_as_messages(turn);
    let parts = turns.map_values(to_messages);
    if turns.len() > 0 {
        let rest = turns.drop_last();
        law_history_is_turn_by_turn(rest);
        assert(parts.drop_last() =~= rest.map_values(to_messages));
        let turn = turns.last();
        assert(parts.last() == turn_as_messages(turn));
        assert(turn_history(turns) =~= turn_history(rest) + turn_as_messages(turn));
    }
}

/// What is kept of a text that is cut is as much of its beginning as fits: one
/// character more would not. How much was cut is told behind it.
pub proof fn law_as_much_as_fits_is_kept(s: Seq<char>, cap: nat)
    requires
        byte_len(s) > cap,
    ensures
        exists|n: int| #[trigger] is_longest_fit(s, cap, n) && cut_text(s, cap) == s.take(n)
            + "… [truncated "@ + decimal_text((byte_len(s) - byte_len(s.take(n))) as nat)
            + " bytes]"@,
{
    let n = chars_within(s, s.len() as int, cap);
    crate::session::law_cut_text_fits(s, cap);
    lemma_longest(s, s.len() as int, cap);
    assert(s.take(s.len() as int) =~= s);
    assert(is_longest_fit(s, cap, n));
}

/// Whether the first `n` characters fit into `cap` bytes, and no more do.
pub open spec fn is_longest_fit(s: Seq<char>, cap: nat, n: int) -> bool {
    &&& 0 <= n < s.len()
    &&& byte_len(s.take(n)) <= cap
    &&& forall|k: int| n < k <= s.len() ==> byte_len(#[trigger] s.take(k)) > cap
}

proof fn lemma_longest(s: Seq<char>, n: int, cap: nat)
    requires
        0 <= n <= s.len(),
    ensures
        forall|k: int|
            chars_within(s, n, cap) < k <= n ==> byte_len(#[trigger] s.take(k)) > cap,
        chars_within(s, n, cap) <= n,
    decreases n,
{
    if n > 0 && byte_len(s.take(n)) > cap {
        lemma_longest(s, n - 1, cap);
    }
}

/// The cap cuts the answers of tools and nothing else: a tool's message, and the
/// answers among the blocks of a message of the user. Every other field stays.
pub proof fn law_cap_cuts_answers_alone(message: JsonView, cap: nat, name: Seq<char>, i: int)
    requires
        cap > 0,
    ensures
        name != "content"@ ==> capped(message, cap).field(name) == message.field(name),
        message.field("role"@) == Some(JsonView::Text("tool"@)) ==> (message.field("content"@)
            matches Some(JsonView::Text(text)) ==> capped(message, cap).field("content"@) == Some(
            JsonView::Text(cut_text(text, cap)),
        )),
        message.field("role"@) == Some(JsonView::Text("assistant"@)) ==> capped(message, cap)
            == message,
        message.field("role"@) == Some(JsonView::Text("user"@)) ==> (match message.field(
            "content"@,
        ) {
            Some(JsonView::Array(blocks)) => match capped(message, cap).field("content"@) {
                Some(JsonView::Array(copies)) => copies.len() == blocks.len() && (0 <= i
                    < blocks.len() ==> copies[i] == capped_block(blocks[i], cap)),
                _ => false,
            },
            _ => capped(message, cap) == message,
        }),
{
    reveal_strlit("tool");
    reveal_strlit("user");
    reveal_strlit("assistant");
    assert("tool"@[0] == 't' && "user"@[0] == 'u' && "assistant"@[0] == 'a');
}

/// Among the blocks the text of a tool's answer is cut, and nothing else.
pub proof fn law_cap_cuts_blocks_of_answers(block: JsonView, cap: nat, name: Seq<char>)
    ensures
        block.field("type"@) != Some(JsonView::Text("tool_result"@)) ==> capped_block(block, cap)
            == block,
        block.field("type"@) == Some(JsonView::Text("tool_result"@)) ==> (match block.field(
            "content"@,
        ) {
            Some(JsonView::Text(text)) => capped_block(block, cap).field("content"@) == Some(
                JsonView::Text(cut_text(text, cap)),
            ) && (name != "content"@ ==> capped_block(block, cap).field(name) == block.field(name)),
            _ => capped_block(block, cap) == block,
        }),
{
}

/// The text in a field, or nothing.
pub open spec fn told_under(json: JsonView, name: Seq<char>) -> Seq<char> {
    match json.field(name) {
        Some(JsonView::Text(text)) => text,
        _ => Seq::empty(),
    }
}

/// The call of a tool that stands beside a message.
pub open spec fn call_beside(call: JsonView) -> MadeCall {
    let function = match call.field("function"@) {
        Some(function) => function,
        None => JsonView::Null,
    };
    MadeCall {
        id: told_under(call, "id"@),
        name: told_under(function, "name"@),
        input: arguments_json(told_under(function, "arguments"@)),
    }
}

/// The call of a tool that a block is.
pub open spec fn call_as_block(block: JsonView) -> MadeCall {
    MadeCall {
        id: told_under(block, "id"@),
        name: told_under(block, "name"@),
        input: match block.field("input"@) {
            Some(input) => input,
            None => JsonView::Object(Map::empty()),
        },
    }
}

/// The calls of a message are all that stand beside it and all that are blocks of
/// it, in order, each with its id, its name and its arguments.
pub proof fn law_all_calls_are_found(message: JsonView)
    ensures
        calls_made(message) == calls_of(message).map_values(
            |call: JsonView| call_beside(call),
        ) + blocks_of(message).filter(
            |block: JsonView| block.field("type"@) == Some(JsonView::Text("tool_use"@)),
        ).map_values(|block: JsonView| call_as_block(block)),
{
    let beside = |call: JsonView| call_beside(call);
    lemma_calls_among(blocks_of(message));
    let calls = calls_of(message);
    assert(calls.map_values(|call: JsonView| crate::session::beside_call(call))
        =~= calls.map_values(beside));
}

proof fn lemma_calls_among(blocks: Seq<JsonView>)
    ensures
        calls_among(blocks) == blocks.filter(
            |block: JsonView| block.field("type"@) == Some(JsonView::Text("tool_use"@)),
        ).map_values(|block: JsonView| call_as_block(block)),
    decreases blocks.len(),
{
    reveal(Seq::filter);
    let uses = |block: JsonView| block.field("type"@) == Some(JsonView::Text("tool_use"@));
    let to_call = |block: JsonView| call_as_block(block);
    if blocks.len() > 0 {
        let rest = blocks.drop_last();
        let last = blocks.last();
        lemma_calls_among(rest);
        if uses(last) {
            assert(says(last, "type"@, "tool_use"@));
            assert(rest.filter(uses).push(last).map_values(to_call) =~= rest.filter(
                uses,
            ).map_values(to_call).push(call_as_block(last)));
        } else {
            assert(!says(last, "type"@, "tool_use"@));
        }
    } else {
        assert(calls_among(blocks) =~= blocks.filter(uses).map_values(to_call));
    }
}

/// What a call has come to is what the first message behind it that answers it
/// says; a call that none answers has come to nothing.
pub proof fn law_first_answer_counts(messages: Seq<JsonView>, i: int, j: int, id: Seq<char>)
    requires
        0 <= i,
    ensures
        i <= j < messages.len() && result_in(messages[j], id) is Some && (forall|k: int|
            i <= k < j ==> result_in(#[trigger] messages[k], id) is None) ==> result_from(
            messages,
            i,
            id,
        ) == result_in(messages[j], id),
        (forall|k: int| i <= k < messages.len() ==> result_in(#[trigger] messages[k], id) is None)
            ==> result_from(messages, i, id) is None,
    decreases messages.len() - i,
{
    if i < messages.len() {
        if result_in(messages[i], id) is None {
            law_first_answer_counts(messages, i + 1, j, id);
        }
    }
}

/// A message of a tool tells what has come of the call that it names, and the
/// first block of the user's that names the call and is an answer.
pub proof fn law_answers_tell_what_came(message: JsonView, id: Seq<char>, j: int)
    ensures
        message.field("role"@) == Some(JsonView::Text("tool"@)) ==> result_in(message, id)
            == if message.field("tool_call_id"@) == Some(JsonView::Text(id)) {
            Some(message_text(message))
        } else {
            None::<Seq<char>>
        },
        message.field("role"@) == Some(JsonView::Text("user"@)) ==> ({
            let blocks = blocks_of(message);
            0 <= j < blocks.len() && answers_call(blocks[j], id) && (forall|k: int|
                0 <= k < j ==> !answers_call(#[trigger] blocks[k], id)) ==> result_in(message, id)
                == Some(message_text(blocks[j]))
        }),
        message.field("role"@) == Some(JsonView::Text("assistant"@)) ==> result_in(message, id)
            is None,
{
    reveal_strlit("tool");
    reveal_strlit("user");
    reveal_strlit("assistant");
    assert("tool"@[0] == 't' && "user"@[0] == 'u' && "assistant"@[0] == 'a');
    let blocks = blocks_of(message);
    if 0 <= j < blocks.len() && answers_call(blocks[j], id) && (forall|k: int|
        0 <= k < j ==> !answers_call(#[trigger] blocks[k], id)) {
        lemma_block_result(blocks, 0, j, id);
    }
}

/// Whether the block is the answer to the call.
pub open spec fn answers_call(block: JsonView, id: Seq<char>) -> bool {
    block.field("type"@) == Some(JsonView::Text("tool_result"@)) && block.field("tool_use_id"@)
        == Some(JsonView::Text(id))
}

proof fn lemma_block_result(blocks: Seq<JsonView>, i: int, j: int, id: Seq<char>)
    requires
        0 <= i <= j < blocks.len(),
        answers_call(blocks[j], id),
        forall|k: int| i <= k < j ==> !answers_call(#[trigger] blocks[k], id),
    ensures
        block_result(blocks, i, id) == Some(message_text(blocks[j])),
    decreases j - i,
{
    if i < j {
        assert(!answers_call(blocks[i], id));
        lemma_block_result(blocks, i + 1, j, id);
    }
}

/// A call is noted by its name, its arguments in brackets, in the order of their
/// names, and what has come of it; of either no more than five hundred
/// characters, and a mark where there are more.
pub proof fn law_call_is_noted(
    call: MadeCall,
    fields: Map<Seq<char>, JsonView>,
    result: Seq<char>,
    text: Seq<char>,
)
    ensures
        text.len() <= 500 ==> noted(text) == text,
        text.len() > 500 ==> noted(text) == text.take(500) + "…"@,
        call.input == JsonView::Object(fields) ==> {
            let arguments = joined(
                ordered(fields.dom()).map_values(
                    |name: Seq<char>| name + "="@ + json_as_text(fields[name]),
                ),
                ", "@,
            );
            let head = call.name + "("@ + noted(arguments) + ")"@;
            &&& call_note(call, None) == head
            &&& call_note(call, Some(result)) == head + (" → "@ + noted(result))
        },
{
    if call.input == JsonView::Object(fields) {
        let names = ordered(fields.dom());
        assert(names.map_values(
            |name: Seq<char>| crate::session::argument_note(name, fields[name]),
        ) =~= names.map_values(|name: Seq<char>| name + "="@ + json_as_text(fields[name])));
        let head = call.name + "("@ + noted(arguments_note(call.input)) + ")"@;
        assert(call_note(call, None) =~= head);
    }
}

/// The calls of a message are noted in their order, each with what has come of
/// it in the messages behind.
pub proof fn law_every_call_is_noted(messages: Seq<JsonView>, i: int, k: int)
    requires
        0 <= i < messages.len(),
    ensures
        call_notes(messages, i).len() == calls_made(messages[i]).len(),
        0 <= k < calls_made(messages[i]).len() ==> call_notes(messages, i)[k] == call_note(
            calls_made(messages[i])[k],
            result_from(messages, i + 1, calls_made(messages[i])[k].id),
        ),
{
}

/// A conversation as a text is its turns in their order, a blank line between
/// them, each what the user said and all steps of the model in lines of their
/// own.
pub proof fn law_text_of_a_conversation(messages: Seq<JsonView>, i: int)
    ensures
        ({
            let turns = turns_in(messages);
            let parts = turns.map_values(|turn: TurnView| rendered_turn(turn));
            &&& rendered(messages) == joined(parts, "\n\n"@)
            &&& 0 <= i < turns.len() ==> parts[i] == "USER: "@ + turns[i].said
                + "\n\nASSISTANT: "@ + joined(turns[i].steps, "\n"@)
        }),
{
}

/// A message in plain text is of the same role and says the same, whatever the
/// provider; a message that says nothing is left out, and no other.
pub proof fn law_plain_text_says_the_same(kind: ApiKind, message: JsonView)
    ensures
        message_text(message).len() == 0 <==> cleaned(kind, message) is None,
        cleaned(kind, message) matches Some(plain) ==> message_text(plain) == message_text(message)
            && plain.field("role"@) == Some(
            JsonView::Text(
                if message.field("role"@) == Some(JsonView::Text("assistant"@)) {
                    "assistant"@
                } else {
                    "user"@
                },
            ),
        ),
{
    if let Some(plain) = cleaned(kind, message) {
        let text = message_text(message);
        let said = seq![BlockView::Text { text }];
        law_message_says_all_its_texts(plain);
        law_answer_is_kept_whole(kind, only_text(text));
        law_what_the_user_says_is_sent_whole(kind, said);
        law_one_text_is_sent_as_it_is(kind, text);
        reveal(Seq::filter);
        assert(said.drop_last() =~= Seq::<BlockView>::empty());
        assert(Seq::<BlockView>::empty().filter(
            |block: BlockView| block is Text || block is Image,
        ) =~= Seq::<BlockView>::empty());
        assert(said_blocks(said) =~= said);
        if kind == ApiKind::Anthropic {
            let told = |block: JsonView| text_in_block(block);
            let blocks = plain.field("content"@)->0->Array_0;
            assert(said_blocks(said)[0] == said[0]);
            assert(blocks.len() == 1);
            assert(text_in_block(blocks[0]) == Some(text));
            assert(blocks.drop_last() =~= Seq::<JsonView>::empty());
            assert(Seq::<JsonView>::empty().filter_map(told) =~= Seq::<Seq<char>>::empty());
            assert(blocks.filter_map(told) =~= seq![text]);
            assert(joined(seq![text], "\n"@) == text);
        }
    }
}

/// Of a list of messages, all that say something are put in plain text, in
/// their order.
pub proof fn law_all_are_put_in_plain_text(kind: ApiKind, messages: Seq<JsonView>)
    ensures
        all_cleaned(kind, messages) == messages.filter_map(
            |message: JsonView| cleaned(kind, message),
        ),
    decreases messages.len(),
{
    let plain = |message: JsonView| cleaned(kind, message);
    if messages.len() > 0 {
        let rest = messages.drop_last();
        law_all_are_put_in_plain_text(kind, rest);
        if let Some(message) = cleaned(kind, messages.last()) {
            assert(rest.filter_map(plain).push(message) =~= rest.filter_map(plain) + seq![message]);
        }
    } else {
        assert(all_cleaned(kind, messages) =~= messages.filter_map(plain));
    }
}

} // verus!
