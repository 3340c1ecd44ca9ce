//! What the loop keeps of a conversation can be sent again as it is: providers
//! reject a tool call that has no answer.
use crate::agent_loop::context::{
    all_capped, all_cleaned, boundary, cap_of, capped, capped_block,
    law_cap_keeps_what_was_said, only_text, raw_user, sent, sent_prior, verbatim_turns,
    without_notes, ContextStrategy, ContextStrategyConfig,
};
use crate::agent_loop::response::{raw_answer, ResponseView, ToolCallView};
use crate::agent_loop::run::{
    answered, call_answered, cancelled_tools, compacted, cycle_over, images_shown,
    law_rounds_agree, raw_tool_answer, reminder_text, reminds, round_over, rounds_agree, spent,
    started, step_for, taken_in, tool_answered, tools_answered, AnswerStepView, LoopView,
    COMPACT_PAIRS,
};
use crate::agent_loop::turn::{
    answer_step, counted, next_round, next_tool, turn_step, EndingView, HappeningView, PhaseView,
    RunningTurn,
};
use crate::json::JsonView;
use crate::provider::messages::{
    answered_after, answers, block_answers, blocks_of, call_ids, calls_of, has_text, ids_in,
    is_dangling, is_meaningful, is_sendable, repaired, says, sendable,
};
use crate::provider::select::ApiKind;
use crate::session::{
    answer_of, cut_down, is_note, is_turn, kept_messages, last_of, last_turns_start,
    lemma_joined_says, lemma_turns_in, less_one, message_text, notes_of, plain_message,
    turn_messages, turns_in, TurnView,
};
use crate::types::{BlockView, ImageView, MessageView};
use vstd::prelude::*;

verus! {

/// Whether a conversation can be sent again as it is: every message of the model
/// says something or calls a tool, and every call has its answer.
pub open spec fn replayable(messages: Seq<JsonView>) -> bool {
    &&& forall|i: int| 0 <= i < messages.len() ==> is_sendable(#[trigger] messages[i])
    &&& forall|i: int| 0 <= i < messages.len() ==> !(#[trigger] is_dangling(messages, i))
}

/// Whether the outputs are the answers to the calls of the response: the call,
/// the answer, and whether the tool failed.
pub open spec fn answers_all(
    response: ResponseView,
    outputs: Seq<(ToolCallView, Seq<char>, bool)>,
) -> bool {
    &&& outputs.len() == response.calls.len()
    &&& forall|i: int|
        0 <= i < outputs.len() ==> (#[trigger] outputs[i]).0 == response.calls[i]
}

proof fn lemma_prefix_is_not_dangling(messages: Seq<JsonView>, more: Seq<JsonView>, i: int)
    requires
        0 <= i < messages.len(),
        !is_dangling(messages, i),
    ensures
        !is_dangling(messages + more, i),
{
    let all = messages + more;
    assert(all[i] == messages[i]);
    if says(messages[i], "role"@, "assistant"@) {
        assert forall|k: int| 0 <= k < call_ids(all[i]).len() implies answered_after(
            all,
            i,
            #[trigger] call_ids(all[i])[k],
        ) by {
            let id = call_ids(messages[i])[k];
            assert(answered_after(messages, i, id));
            let j = choose|j: int| i < j < messages.len() && answers(#[trigger] messages[j], id);
            assert(all[j] == messages[j]);
        }
    }
}

/// A message that is not the model's can follow.
proof fn lemma_push_other(messages: Seq<JsonView>, message: JsonView)
    requires
        replayable(messages),
        !says(message, "role"@, "assistant"@),
    ensures
        replayable(messages.push(message)),
{
    let all = messages.push(message);
    assert(all =~= messages + seq![message]);
    assert forall|i: int| 0 <= i < all.len() implies !(#[trigger] is_dangling(all, i)) by {
        if i < messages.len() {
            lemma_prefix_is_not_dangling(messages, seq![message], i);
        }
    }
    assert forall|i: int| 0 <= i < all.len() implies is_sendable(#[trigger] all[i]) by {
        if i < messages.len() {
            assert(is_sendable(messages[i]));
        }
    }
}

/// A message of the model that says something and calls no tool can follow.
proof fn lemma_push_plain(messages: Seq<JsonView>, message: JsonView)
    requires
        replayable(messages),
        is_sendable(message),
        call_ids(message).len() == 0,
    ensures
        replayable(messages.push(message)),
{
    let all = messages.push(message);
    assert(all =~= messages + seq![message]);
    assert forall|i: int| 0 <= i < all.len() implies !(#[trigger] is_dangling(all, i)) by {
        if i < messages.len() {
            lemma_prefix_is_not_dangling(messages, seq![message], i);
        }
    }
    assert forall|i: int| 0 <= i < all.len() implies is_sendable(#[trigger] all[i]) by {
        if i < messages.len() {
            assert(is_sendable(messages[i]));
        }
    }
}

proof fn lemma_ids_come_from(items: Seq<JsonView>, only_tool_use: bool, k: int)
    requires
        0 <= k < ids_in(items, only_tool_use).len(),
    ensures
        exists|j: int|
            0 <= j < items.len() && (#[trigger] items[j]).text_field("id"@) == Some(
                ids_in(items, only_tool_use)[k],
            ),
    decreases items.len(),
{
    let before = ids_in(items.drop_last(), only_tool_use);
    if k < before.len() {
        lemma_ids_come_from(items.drop_last(), only_tool_use, k);
        let j = choose|j: int|
            0 <= j < items.drop_last().len() && (#[trigger] items.drop_last()[j]).text_field("id"@)
                == Some(before[k]);
        assert(items[j] == items.drop_last()[j]);
    } else {
        assert(items[items.len() - 1] == items.last());
    }
}

proof fn lemma_no_ids(items: Seq<JsonView>, only_tool_use: bool)
    requires
        items.len() == 0,
    ensures
        ids_in(items, only_tool_use).len() == 0,
{
}

/// The ids that an answer calls tools with are those of its tool calls.
proof fn lemma_ids_of_answer(kind: ApiKind, response: ResponseView, k: int)
    requires
        0 <= k < call_ids(raw_answer(kind, response)).len(),
    ensures
        exists|m: int|
            0 <= m < response.calls.len() && (#[trigger] response.calls[m]).id == call_ids(
                raw_answer(kind, response),
            )[k],
{
    reveal_strlit("role");
    reveal_strlit("content");
    reveal_strlit("reasoning_content");
    reveal_strlit("tool_calls");
    reveal_strlit("id");
    reveal_strlit("type");
    reveal_strlit("text");
    reveal_strlit("name");
    reveal_strlit("input");
    reveal_strlit("function");
    assert("role"@.len() == 4 && "content"@.len() == 7 && "reasoning_content"@.len() == 17);
    assert("tool_calls"@.len() == 10 && "id"@.len() == 2 && "type"@.len() == 4);
    assert("text"@.len() == 4 && "name"@.len() == 4 && "input"@.len() == 5 && "function"@.len() == 8);
    let json = raw_answer(kind, response);
    let id = call_ids(json)[k];
    if kind == ApiKind::Anthropic {
        assert(json.array_field("tool_calls"@) is None);
        lemma_no_ids(calls_of(json), false);
        let blocks = blocks_of(json);
        lemma_ids_come_from(blocks, true, k);
        let j = choose|j: int|
            0 <= j < blocks.len() && (#[trigger] blocks[j]).text_field("id"@) == Some(id);
        let head: int = if response.text.len() > 0 {
            1
        } else {
            0
        };
        if j < head {
            assert(blocks[j] == crate::provider::anthropic::text_block(response.text));
            assert(blocks[j].field("id"@) is None);
        }
        assert(blocks[j].text_field("id"@) == Some(response.calls[j - head].id));
        assert(response.calls[j - head].id == id);
    } else {
        assert(json.array_field("content"@) is None);
        lemma_no_ids(blocks_of(json), true);
        let calls = calls_of(json);
        lemma_ids_come_from(calls, false, k);
        let j = choose|j: int|
            0 <= j < calls.len() && (#[trigger] calls[j]).text_field("id"@) == Some(id);
        assert(calls[j].text_field("id"@) == Some(response.calls[j].id));
        assert(response.calls[j].id == id);
    }
}

/// An answer that is kept can be sent again.
proof fn lemma_answer_is_sendable(kind: ApiKind, response: ResponseView)
    requires
        response.text.len() > 0 || response.calls.len() > 0,
    ensures
        is_sendable(raw_answer(kind, response)),
{
    reveal_strlit("role");
    reveal_strlit("content");
    reveal_strlit("reasoning_content");
    reveal_strlit("tool_calls");
    reveal_strlit("type");
    reveal_strlit("text");
    reveal_strlit("id");
    reveal_strlit("name");
    reveal_strlit("input");
    assert("role"@.len() == 4 && "content"@.len() == 7 && "reasoning_content"@.len() == 17);
    assert("tool_calls"@.len() == 10 && "id"@.len() == 2 && "input"@.len() == 5);
    assert("type"@[1] == 'y' && "text"@[1] == 'e' && "name"@[1] == 'a');
    let json = raw_answer(kind, response);
    if kind == ApiKind::Anthropic {
        let blocks = blocks_of(json);
        if response.text.len() > 0 {
            assert(blocks[0] == crate::provider::anthropic::text_block(response.text));
            assert(blocks[0].text_field("type"@) == Some("text"@));
            assert(blocks[0].text_field("text"@) == Some(response.text));
        } else {
            assert(blocks[0].text_field("type"@) == Some("tool_use"@));
        }
        assert(is_meaningful(blocks[0]));
    } else if response.calls.len() > 0 {
        assert(calls_of(json).len() > 0);
    } else {
        assert(has_text(json, "content"@));
    }
}

/// A tool's answer is not the model's, and answers its call.
proof fn lemma_tool_answer(kind: ApiKind, id: Seq<char>, content: Seq<char>, is_error: bool)
    ensures
        !says(raw_tool_answer(kind, id, content, is_error), "role"@, "assistant"@),
        answers(raw_tool_answer(kind, id, content, is_error), id),
{
    reveal_strlit("role");
    reveal_strlit("content");
    reveal_strlit("tool_call_id");
    reveal_strlit("tool_use_id");
    reveal_strlit("type");
    reveal_strlit("is_error");
    reveal_strlit("tool");
    reveal_strlit("user");
    reveal_strlit("assistant");
    assert("role"@.len() == 4 && "content"@.len() == 7 && "tool_call_id"@.len() == 12);
    assert("tool_use_id"@.len() == 11 && "type"@.len() == 4 && "is_error"@.len() == 8);
    assert("tool"@.len() == 4 && "user"@.len() == 4 && "assistant"@.len() == 9);
    let json = raw_tool_answer(kind, id, content, is_error);
    if kind == ApiKind::Anthropic {
        assert(json.text_field("role"@) == Some("user"@));
        assert(block_answers(blocks_of(json)[0], id));
    } else {
        assert(json.text_field("role"@) == Some("tool"@));
        assert(json.text_field("tool_call_id"@) == Some(id));
    }
}

/// What the user says is not the model's.
proof fn lemma_user(kind: ApiKind, blocks: Seq<BlockView>)
    ensures
        !says(raw_user(kind, blocks), "role"@, "assistant"@),
{
    reveal_strlit("role");
    reveal_strlit("content");
    reveal_strlit("user");
    reveal_strlit("assistant");
    assert("role"@.len() != "content"@.len());
    assert("user"@.len() != "assistant"@.len());
    assert(raw_user(kind, blocks).text_field("role"@) == Some("user"@));
}

/// The answers of tools, as they are kept.
pub open spec fn raw_tool_answers(
    kind: ApiKind,
    outputs: Seq<(ToolCallView, Seq<char>, bool)>,
) -> Seq<JsonView> {
    outputs.map_values(
        |output: (ToolCallView, Seq<char>, bool)|
            raw_tool_answer(kind, output.0.id, output.1, output.2),
    )
}

proof fn lemma_tools_answered(
    state: LoopView,
    kind: ApiKind,
    outputs: Seq<(ToolCallView, Seq<char>, bool)>,
)
    ensures
        tools_answered(state, kind, outputs).raw == state.raw + raw_tool_answers(kind, outputs),
    decreases outputs.len(),
{
    if outputs.len() == 0 {
        assert(state.raw + raw_tool_answers(kind, outputs) =~= state.raw);
    } else {
        lemma_tools_answered(state, kind, outputs.drop_last());
        assert(tools_answered(state, kind, outputs).raw =~= state.raw + raw_tool_answers(
            kind,
            outputs,
        ));
    }
}

/// A conversation that can be sent again as it is, is sent again as it is.
pub proof fn law_replayable_is_sent_whole(messages: Seq<JsonView>)
    requires
        replayable(messages),
    ensures
        repaired(sendable(messages)) == messages,
{
    crate::provider::messages::law_sound_conversation_is_sent_whole(messages);
}

/// What the user says can follow a conversation that can be sent again.
pub proof fn law_start_is_replayable(
    kind: ApiKind,
    history: Seq<MessageView>,
    raw: Seq<JsonView>,
    blocks: Seq<BlockView>,
    max_iterations: Option<usize>,
    reply_tool: bool,
)
    requires
        replayable(raw),
    ensures
        replayable(started(kind, history, raw, blocks, max_iterations, reply_tool).raw),
{
    lemma_user(kind, blocks);
    lemma_push_other(raw, raw_user(kind, blocks));
}

/// A round in which every tool has answered leaves a conversation that can be
/// sent again.
pub proof fn law_round_is_replayable(
    state: LoopView,
    kind: ApiKind,
    response: ResponseView,
    outputs: Seq<(ToolCallView, Seq<char>, bool)>,
)
    requires
        replayable(state.raw),
        answers_all(response, outputs),
    ensures
        replayable(tools_answered(answered(state, kind, response), kind, outputs).raw),
{
    let first = answered(state, kind, response);
    let replies = raw_tool_answers(kind, outputs);
    let all = tools_answered(first, kind, outputs).raw;
    lemma_tools_answered(first, kind, outputs);
    if response.text.len() == 0 && response.calls.len() == 0 {
        assert(all =~= state.raw);
    } else {
        let answer = raw_answer(kind, response);
        let at = state.raw.len() as int;
        lemma_answer_is_sendable(kind, response);
        assert(all[at] == answer);
        assert(all =~= state.raw + (seq![answer] + replies));
        assert forall|i: int| 0 <= i < all.len() implies !(#[trigger] is_dangling(all, i)) by {
            if i < at {
                lemma_prefix_is_not_dangling(state.raw, seq![answer] + replies, i);
            } else if i == at {
                assert forall|k: int| 0 <= k < call_ids(all[i]).len() implies answered_after(
                    all,
                    i,
                    #[trigger] call_ids(all[i])[k],
                ) by {
                    let id = call_ids(answer)[k];
                    lemma_ids_of_answer(kind, response, k);
                    let m = choose|m: int|
                        0 <= m < response.calls.len() && (#[trigger] response.calls[m]).id == id;
                    assert(outputs[m].0.id == id);
                    lemma_tool_answer(kind, outputs[m].0.id, outputs[m].1, outputs[m].2);
                    assert(all[at + 1 + m] == replies[m]);
                }
            } else {
                let output = outputs[i - at - 1];
                lemma_tool_answer(kind, output.0.id, output.1, output.2);
                assert(all[i] == replies[i - at - 1]);
            }
        }
        assert forall|i: int| 0 <= i < all.len() implies is_sendable(#[trigger] all[i]) by {
            if i < at {
                assert(all[i] == state.raw[i]);
            } else if i > at {
                let output = outputs[i - at - 1];
                lemma_tool_answer(kind, output.0.id, output.1, output.2);
                assert(all[i] == replies[i - at - 1]);
            }
        }
    }
}

/// What the user answers to a question, and the images that tools have loaded,
/// can follow a conversation that can be sent again.
pub proof fn law_additions_are_replayable(
    state: LoopView,
    kind: ApiKind,
    id: Seq<char>,
    content: Seq<char>,
    is_error: bool,
    images: Seq<ImageView>,
)
    requires
        replayable(state.raw),
    ensures
        replayable(tool_answered(state, kind, id, content, is_error).raw),
        replayable(images_shown(state, kind, images).raw),
{
    lemma_tool_answer(kind, id, content, is_error);
    lemma_push_other(state.raw, raw_tool_answer(kind, id, content, is_error));
    let blocks = crate::agent_loop::run::loaded_blocks(images);
    lemma_user(kind, blocks);
    lemma_push_other(state.raw, raw_user(kind, blocks));
}

/// A round that was cancelled leaves a conversation that can be sent again.
pub proof fn law_cancelled_is_replayable(
    state: LoopView,
    kind: ApiKind,
    response: ResponseView,
    outputs: Seq<(ToolCallView, Seq<char>, bool)>,
)
    requires
        replayable(state.raw),
        response.calls.len() > 0,
    ensures
        replayable(
            cancelled_tools(tools_answered(answered(state, kind, response), kind, outputs)).raw,
        ),
{
    crate::agent_loop::run::law_cancelling_forgets_the_answer(state, kind, response, outputs);
}

/// Whether a message is one of plain text; an answer of the model has some.
spec fn is_plain(message: JsonView) -> bool {
    exists|text: Seq<char>|
        message == #[trigger] plain_message("user"@, text) || (message == plain_message(
            "assistant"@,
            text,
        ) && text.len() > 0)
}

proof fn lemma_plain_is_replayable(messages: Seq<JsonView>)
    requires
        forall|i: int| 0 <= i < messages.len() ==> is_plain(#[trigger] messages[i]),
    ensures
        replayable(messages),
    decreases messages.len(),
{
    if messages.len() > 0 {
        let rest = messages.drop_last();
        assert forall|i: int| 0 <= i < rest.len() implies is_plain(#[trigger] rest[i]) by {
            assert(rest[i] == messages[i]);
        }
        lemma_plain_is_replayable(rest);
        reveal_strlit("role");
        reveal_strlit("content");
        reveal_strlit("tool_calls");
        reveal_strlit("user");
        reveal_strlit("assistant");
        assert("role"@.len() == 4 && "content"@.len() == 7 && "tool_calls"@.len() == 10);
        assert("user"@.len() != "assistant"@.len());
        let last = messages[messages.len() - 1];
        assert(is_plain(last));
        let text = choose|text: Seq<char>|
            last == #[trigger] plain_message("user"@, text) || (last == plain_message(
                "assistant"@,
                text,
            ) && text.len() > 0);
        assert(messages =~= rest.push(last));
        if last == plain_message("user"@, text) {
            assert(last.text_field("role"@) == Some("user"@));
            lemma_push_other(rest, last);
        } else {
            assert(last.text_field("content"@) == Some(text));
            assert(has_text(last, "content"@));
            assert(last.array_field("content"@) is None);
            assert(last.array_field("tool_calls"@) is None);
            assert(call_ids(last).len() == 0);
            lemma_push_plain(rest, last);
        }
    }
}

proof fn lemma_turns_are_replayable(turns: Seq<TurnView>, with_notes: nat)
    requires
        forall|i: int| 0 <= i < turns.len() ==> is_turn(#[trigger] turns[i]),
    ensures
        replayable(kept_messages(turns, with_notes)),
    decreases turns.len(),
{
    if turns.len() > 0 {
        let rest = turns.drop_last();
        assert forall|i: int| 0 <= i < rest.len() implies is_turn(#[trigger] rest[i]) by {
            assert(rest[i] == turns[i]);
        }
        lemma_turns_are_replayable(rest, less_one(with_notes));
        let turn = turns[turns.len() - 1];
        assert(is_turn(turn));
        let last = turn_messages(turn, with_notes > 0);
        let notes = notes_of(turn);
        assert forall|i: int| 0 <= i < last.len() implies is_plain(#[trigger] last[i]) by {
            let count: int = if with_notes > 0 {
                notes.len() as int
            } else {
                0
            };
            if i == 0 {
                assert(last[i] == plain_message("user"@, turn.said));
            } else if i <= count {
                assert(last[i] == plain_message("user"@, notes[i - 1]));
            } else {
                assert(turn.texts[turn.texts.len() - 1].len() > 0);
                lemma_joined_says(turn.texts, "\n"@);
                let _ = plain_message("user"@, answer_of(turn));
                assert(last[i] == plain_message("assistant"@, answer_of(turn)));
            }
        }
        lemma_plain_is_replayable(last);
        lemma_concat(kept_messages(rest, less_one(with_notes)), last);
    } else {
        lemma_plain_is_replayable(kept_messages(turns, with_notes));
    }
}

/// A conversation that was cut down to its last turns can be sent again,
/// whatever it was before.
pub proof fn law_compacted_is_replayable(state: LoopView)
    ensures
        replayable(compacted(state).raw),
{
    let turns = turns_in(state.raw);
    let kept = last_of(turns, COMPACT_PAIRS as nat);
    assert forall|i: int| 0 <= i < kept.len() implies is_turn(#[trigger] kept[i]) by {
        if turns.len() > COMPACT_PAIRS {
            assert(kept[i] == turns[i + turns.len() - COMPACT_PAIRS]);
            lemma_turns_in(state.raw, i + turns.len() - COMPACT_PAIRS);
        } else {
            lemma_turns_in(state.raw, i);
        }
    }
    lemma_turns_are_replayable(kept, kept.len());
}

/// Conversations that can be sent again can be sent one after the other.
proof fn lemma_concat(a: Seq<JsonView>, b: Seq<JsonView>)
    requires
        replayable(a),
        replayable(b),
    ensures
        replayable(a + b),
{
    let all = a + b;
    assert forall|i: int| 0 <= i < all.len() implies !(#[trigger] is_dangling(all, i)) by {
        if i < a.len() {
            lemma_prefix_is_not_dangling(a, b, i);
        } else {
            let at = i - a.len();
            assert(all[i] == b[at]);
            assert(!is_dangling(b, at));
            if says(b[at], "role"@, "assistant"@) {
                assert forall|k: int| 0 <= k < call_ids(all[i]).len() implies answered_after(
                    all,
                    i,
                    #[trigger] call_ids(all[i])[k],
                ) by {
                    let id = call_ids(b[at])[k];
                    assert(answered_after(b, at, id));
                    let j = choose|j: int| at < j < b.len() && answers(#[trigger] b[j], id);
                    assert(all[a.len() + j] == b[j]);
                }
            }
        }
    }
    assert forall|i: int| 0 <= i < all.len() implies is_sendable(#[trigger] all[i]) by {
        if i < a.len() {
            assert(all[i] == a[i]);
        } else {
            assert(all[i] == b[i - a.len()]);
        }
    }
}

/// The cap changes nothing of what the model said, and no tool's answer to a
/// call becomes none.
proof fn lemma_capped(message: JsonView, cap: nat)
    ensures
        says(message, "role"@, "assistant"@) ==> capped(message, cap) == message,
        says(capped(message, cap), "role"@, "assistant"@) == says(message, "role"@, "assistant"@),
        forall|id: Seq<char>| #[trigger] answers(message, id) ==> answers(capped(message, cap), id),
{
    reveal_strlit("role");
    reveal_strlit("content");
    reveal_strlit("type");
    reveal_strlit("tool_use_id");
    reveal_strlit("tool_call_id");
    reveal_strlit("assistant");
    reveal_strlit("user");
    reveal_strlit("tool");
    assert("role"@.len() == 4 && "content"@.len() == 7 && "type"@.len() == 4);
    assert("tool_use_id"@.len() == 11 && "tool_call_id"@.len() == 12);
    assert("assistant"@.len() == 9 && "user"@.len() == 4 && "tool"@.len() == 4);
    assert("user"@[0] != "tool"@[0]);
    law_cap_keeps_what_was_said(message, cap);
    let after = capped(message, cap);
    assert forall|id: Seq<char>| #[trigger] answers(message, id) implies answers(after, id) by {
        if says(message, "role"@, "user"@) {
            if let Some(blocks) = message.array_field("content"@) {
                let i = choose|i: int| 0 <= i < blocks.len() && block_answers(#[trigger] blocks[i], id);
                if cap > 0 {
                    assert(blocks_of(after)[i] == capped_block(blocks[i], cap));
                    assert(block_answers(blocks_of(after)[i], id));
                }
            }
        }
    }
}

/// What is kept of the messages from `k` on: of the turns before, which end at
/// `end`, no notes.
spec fn kept_from(raw: Seq<JsonView>, k: int, end: int, cap: nat) -> Seq<JsonView>
    decreases raw.len() - k,
{
    if k >= raw.len() {
        Seq::empty()
    } else if k < end && is_note(raw[k]) {
        kept_from(raw, k + 1, end, cap)
    } else {
        seq![capped(raw[k], cap)] + kept_from(raw, k + 1, end, cap)
    }
}

proof fn lemma_without_notes_head(messages: Seq<JsonView>, cap: nat)
    requires
        messages.len() > 0,
    ensures
        without_notes(messages, cap) == (if is_note(messages[0]) {
            Seq::empty()
        } else {
            seq![capped(messages[0], cap)]
        }) + without_notes(messages.skip(1), cap),
    decreases messages.len(),
{
    if messages.len() == 1 {
        assert(messages.drop_last() =~= Seq::empty());
        assert(messages.skip(1) =~= Seq::empty());
        reveal_with_fuel(without_notes, 2);
        assert(without_notes(messages, cap) =~= (if is_note(messages[0]) {
            Seq::empty()
        } else {
            seq![capped(messages[0], cap)]
        }) + without_notes(messages.skip(1), cap));
    } else {
        lemma_without_notes_head(messages.drop_last(), cap);
        assert(messages.drop_last().skip(1) =~= messages.skip(1).drop_last());
        assert(messages.drop_last()[0] == messages[0]);
        assert(messages.skip(1).last() == messages.last());
        assert(without_notes(messages, cap) =~= (if is_note(messages[0]) {
            Seq::empty()
        } else {
            seq![capped(messages[0], cap)]
        }) + without_notes(messages.skip(1), cap));
    }
}

proof fn lemma_kept_from(raw: Seq<JsonView>, k: int, end: int, cap: nat)
    requires
        0 <= k <= end <= raw.len(),
    ensures
        without_notes(raw.subrange(k, end), cap) + all_capped(raw.skip(end), cap) == kept_from(
            raw,
            k,
            end,
            cap,
        ),
    decreases end - k,
{
    let middle = raw.subrange(k, end);
    if k < end {
        lemma_without_notes_head(middle, cap);
        assert(middle.skip(1) =~= raw.subrange(k + 1, end));
        lemma_kept_from(raw, k + 1, end, cap);
        assert(without_notes(middle, cap) + all_capped(raw.skip(end), cap) =~= kept_from(
            raw,
            k,
            end,
            cap,
        ));
    } else {
        assert(middle =~= Seq::empty());
        lemma_kept_end(raw, end, end, cap);
        assert(without_notes(middle, cap) + all_capped(raw.skip(end), cap) =~= kept_from(
            raw,
            k,
            end,
            cap,
        ));
    }
}

proof fn lemma_kept_end(raw: Seq<JsonView>, k: int, end: int, cap: nat)
    requires
        0 <= end <= k <= raw.len(),
    ensures
        kept_from(raw, k, end, cap) == all_capped(raw.skip(k), cap),
    decreases raw.len() - k,
{
    if k < raw.len() {
        lemma_kept_end(raw, k + 1, end, cap);
    }
    assert(kept_from(raw, k, end, cap) =~= all_capped(raw.skip(k), cap));
}

/// Whether a message from `k` on answers the tool call `id`.
spec fn answered_from(messages: Seq<JsonView>, k: int, id: Seq<char>) -> bool {
    exists|j: int| k <= j < messages.len() && answers(#[trigger] messages[j], id)
}

/// Whether no note answers a tool call.
pub open spec fn notes_answer_nothing(messages: Seq<JsonView>) -> bool {
    forall|i: int, id: Seq<char>|
        0 <= i < messages.len() && is_note(messages[i]) ==> !(#[trigger] answers(messages[i], id))
}

proof fn lemma_kept_is_replayable(raw: Seq<JsonView>, k: int, end: int, cap: nat)
    requires
        0 <= k <= raw.len(),
        replayable(raw),
        notes_answer_nothing(raw),
    ensures
        replayable(kept_from(raw, k, end, cap)),
        forall|id: Seq<char>| #[trigger]
            answered_from(raw, k, id) ==> answered_from(kept_from(raw, k, end, cap), 0, id),
    decreases raw.len() - k,
{
    let kept = kept_from(raw, k, end, cap);
    if k < raw.len() {
        let rest = kept_from(raw, k + 1, end, cap);
        lemma_kept_is_replayable(raw, k + 1, end, cap);
        lemma_capped(raw[k], cap);
        if k < end && is_note(raw[k]) {
            assert forall|id: Seq<char>| #[trigger] answered_from(raw, k, id) implies answered_from(
                kept,
                0,
                id,
            ) by {
                let j = choose|j: int| k <= j < raw.len() && answers(#[trigger] raw[j], id);
                assert(j != k);
                assert(answered_from(raw, k + 1, id));
            }
        } else {
            let head = capped(raw[k], cap);
            assert forall|id: Seq<char>| #[trigger] answered_from(raw, k, id) implies answered_from(
                kept,
                0,
                id,
            ) by {
                let j = choose|j: int| k <= j < raw.len() && answers(#[trigger] raw[j], id);
                if j == k {
                    assert(answers(kept[0], id));
                } else {
                    assert(answered_from(raw, k + 1, id));
                    let p = choose|p: int| 0 <= p < rest.len() && answers(#[trigger] rest[p], id);
                    assert(kept[p + 1] == rest[p]);
                }
            }
            assert(is_sendable(raw[k]));
            assert forall|i: int| 0 <= i < kept.len() implies is_sendable(#[trigger] kept[i]) by {
                if i > 0 {
                    assert(kept[i] == rest[i - 1]);
                }
            }
            assert forall|i: int| 0 <= i < kept.len() implies !(#[trigger] is_dangling(kept, i)) by {
                if says(kept[i], "role"@, "assistant"@) {
                    assert forall|m: int| 0 <= m < call_ids(kept[i]).len() implies answered_after(
                        kept,
                        i,
                        #[trigger] call_ids(kept[i])[m],
                    ) by {
                        let id = call_ids(kept[i])[m];
                        if i == 0 {
                            assert(kept[0] == raw[k]);
                            assert(!is_dangling(raw, k));
                            assert(answered_after(raw, k, id));
                            let j = choose|j: int|
                                k < j < raw.len() && answers(#[trigger] raw[j], id);
                            assert(answered_from(raw, k + 1, id));
                            let p = choose|p: int|
                                0 <= p < rest.len() && answers(#[trigger] rest[p], id);
                            assert(kept[p + 1] == rest[p]);
                        } else {
                            assert(kept[i] == rest[i - 1]);
                            assert(!is_dangling(rest, i - 1));
                            assert(answered_after(rest, i - 1, id));
                            let p = choose|p: int|
                                i - 1 < p < rest.len() && answers(#[trigger] rest[p], id);
                            assert(kept[p + 1] == rest[p]);
                        }
                    }
                }
            }
        }
    }
}

proof fn lemma_cleaned_are_replayable(kind: ApiKind, messages: Seq<JsonView>)
    ensures
        replayable(all_cleaned(kind, messages)),
    decreases messages.len(),
{
    if messages.len() > 0 {
        lemma_cleaned_are_replayable(kind, messages.drop_last());
        let before = all_cleaned(kind, messages.drop_last());
        let message = messages.last();
        let text = message_text(message);
        if text.len() > 0 {
            if says(message, "role"@, "assistant"@) {
                let answer = raw_answer(kind, only_text(text));
                lemma_answer_is_sendable(kind, only_text(text));
                if call_ids(answer).len() > 0 {
                    lemma_ids_of_answer(kind, only_text(text), 0);
                }
                lemma_push_plain(before, answer);
            } else {
                let blocks = seq![BlockView::Text { text }];
                lemma_user(kind, blocks);
                lemma_push_other(before, raw_user(kind, blocks));
            }
        }
    }
}

proof fn lemma_turns_start(messages: Seq<JsonView>, i: int, n: nat)
    requires
        0 <= i,
    ensures
        0 <= last_turns_start(messages, i, n) <= i,
    decreases i,
{
    if i > 0 && n > 0 {
        lemma_turns_start(messages, i - 1, n);
        lemma_turns_start(messages, i - 1, (n - 1) as nat);
    }
}

/// What is sent of a conversation that can be sent again can be sent, however
/// much of it is left out: each call that is sent is sent with its answer. Notes
/// are taken to answer no call.
pub proof fn law_what_is_sent_is_replayable(
    kind: ApiKind,
    raw: Seq<JsonView>,
    prior_len: nat,
    strategy: ContextStrategyConfig,
)
    requires
        replayable(raw),
        notes_answer_nothing(raw),
    ensures
        replayable(sent(kind, raw, prior_len, strategy)),
{
    if strategy.mode == ContextStrategy::SlidingWindow {
        let end = boundary(raw, prior_len);
        let prior = raw.take(end);
        let start = last_turns_start(prior, prior.len() as int, verbatim_turns(strategy));
        let cap = cap_of(strategy);
        let parts = sent_prior(kind, prior, strategy);
        lemma_turns_start(prior, prior.len() as int, verbatim_turns(strategy));
        assert(prior.skip(start) =~= raw.subrange(start, end));
        lemma_kept_from(raw, start, end, cap);
        lemma_kept_is_replayable(raw, start, end, cap);
        let pairs = turns_in(prior.skip(start)).len();
        let keep: nat = if pairs <= strategy.window {
            (strategy.window - pairs) as nat
        } else {
            0
        };
        lemma_cleaned_are_replayable(kind, cut_down(prior.take(start), keep, Some(0)));
        lemma_concat(parts.compacted, kept_from(raw, start, end, cap));
        assert(sent(kind, raw, prior_len, strategy) =~= parts.compacted + kept_from(
            raw,
            start,
            end,
            cap,
        ));
    }
}

proof fn lemma_counts_stay(
    state: LoopView,
    kind: ApiKind,
    outputs: Seq<(ToolCallView, Seq<char>, bool)>,
)
    ensures
        ({
            let after = tools_answered(state, kind, outputs);
            &&& after.max_iterations == state.max_iterations
            &&& after.iter_in_cycle == state.iter_in_cycle
            &&& after.cycle_count == state.cycle_count
            &&& after.total_iterations == state.total_iterations
        }),
    decreases outputs.len(),
{
    if outputs.len() > 0 {
        lemma_counts_stay(state, kind, outputs.drop_last());
    }
}

/// Whether the loop is in the middle of a batch of tool calls: before it the
/// conversation could be sent again, the model has made the calls, and those in
/// `outputs` have been answered.
pub open spec fn is_batch(
    state: LoopView,
    kind: ApiKind,
    calls: Seq<ToolCallView>,
    before: LoopView,
    response: ResponseView,
    outputs: Seq<(ToolCallView, Seq<char>, bool)>,
) -> bool {
    &&& replayable(before.raw)
    &&& rounds_agree(before)
    &&& !cycle_over(before)
    &&& response.calls == calls
    &&& 0 < calls.len()
    &&& outputs.len() <= calls.len()
    &&& forall|i: int| 0 <= i < outputs.len() ==> (#[trigger] outputs[i]).0 == calls[i]
    &&& state == tools_answered(answered(before, kind, response), kind, outputs)
}

/// Whether the loop is in the middle of a batch of tool calls of which `done`
/// have been answered.
pub open spec fn in_batch(
    state: LoopView,
    kind: ApiKind,
    calls: Seq<ToolCallView>,
    done: nat,
) -> bool {
    exists|before: LoopView, response: ResponseView, outputs: Seq<(ToolCallView, Seq<char>, bool)>|
        #[trigger] is_batch(state, kind, calls, before, response, outputs) && outputs.len() == done
}

/// Whether the conversation can be sent again and the counts of the rounds
/// agree.
pub open spec fn rests(state: LoopView) -> bool {
    replayable(state.raw) && rounds_agree(state)
}

/// Whether a turn is sound: its conversation can be sent again, or can be as
/// soon as the tools that are being run have answered, and the counts of its
/// rounds agree. Of a turn that has failed nothing is kept.
pub open spec fn is_sound(turn: RunningTurn, kind: ApiKind) -> bool {
    match turn.phase {
        PhaseView::Over(EndingView::Failed(_)) => true,
        PhaseView::Narrating { calls, .. } => in_batch(turn.state, kind, calls, 0),
        PhaseView::Running { calls, done, .. } => done < calls.len() && in_batch(
            turn.state,
            kind,
            calls,
            done,
        ),
        PhaseView::Calling => rests(turn.state) && !cycle_over(turn.state),
        PhaseView::Showing => rests(turn.state) && !cycle_over(turn.state),
        _ => rests(turn.state),
    }
}

proof fn lemma_next_round(state: LoopView, kind: ApiKind, is_cancelled: bool)
    requires
        rests(state),
    ensures
        is_sound(next_round(state, is_cancelled).turn, kind),
{
    let c = state.cycle_count;
    let m = state.max_iterations;
    assert((c + 1) * m == c * m + m) by (nonlinear_arith);
}

proof fn lemma_batch_is_cancelled(
    state: LoopView,
    kind: ApiKind,
    calls: Seq<ToolCallView>,
    done: nat,
)
    requires
        in_batch(state, kind, calls, done),
    ensures
        rests(cancelled_tools(state)),
        !cycle_over(cancelled_tools(state)),
{
    let (before, response, outputs) = choose|
        before: LoopView,
        response: ResponseView,
        outputs: Seq<(ToolCallView, Seq<char>, bool)>,
    | #[trigger] is_batch(state, kind, calls, before, response, outputs) && outputs.len() == done;
    law_cancelled_is_replayable(before, kind, response, outputs);
    lemma_counts_stay(answered(before, kind, response), kind, outputs);
}

proof fn lemma_next_tool(
    state: LoopView,
    kind: ApiKind,
    calls: Seq<ToolCallView>,
    done: nat,
    browses: bool,
    is_cancelled: bool,
)
    requires
        in_batch(state, kind, calls, done),
    ensures
        is_sound(next_tool(state, calls, done, browses, is_cancelled).turn, kind),
{
    if done >= calls.len() {
        let (before, response, outputs) = choose|
            before: LoopView,
            response: ResponseView,
            outputs: Seq<(ToolCallView, Seq<char>, bool)>,
        | #[trigger] is_batch(state, kind, calls, before, response, outputs) && outputs.len()
            == done;
        law_round_is_replayable(before, kind, response, outputs);
        lemma_counts_stay(answered(before, kind, response), kind, outputs);
    } else if is_cancelled {
        lemma_batch_is_cancelled(state, kind, calls, done);
    }
}

proof fn lemma_batch_goes_on(
    state: LoopView,
    kind: ApiKind,
    calls: Seq<ToolCallView>,
    done: nat,
    content: Seq<char>,
    is_error: bool,
)
    requires
        in_batch(state, kind, calls, done),
        done < calls.len(),
    ensures
        in_batch(
            call_answered(state, kind, calls[done as int], content, is_error),
            kind,
            calls,
            done + 1,
        ),
{
    let (before, response, outputs) = choose|
        before: LoopView,
        response: ResponseView,
        outputs: Seq<(ToolCallView, Seq<char>, bool)>,
    | #[trigger] is_batch(state, kind, calls, before, response, outputs) && outputs.len() == done;
    let more = outputs.push((calls[done as int], content, is_error));
    assert(more.drop_last() =~= outputs);
    assert forall|i: int| 0 <= i < more.len() implies (#[trigger] more[i]).0 == calls[i] by {
        if i < outputs.len() {
            assert(more[i] == outputs[i]);
        }
    }
    assert(is_batch(
        call_answered(state, kind, calls[done as int], content, is_error),
        kind,
        calls,
        before,
        response,
        more,
    ));
}

proof fn lemma_answer_is_sound(
    state: LoopView,
    kind: ApiKind,
    is_cancelled: bool,
    response: ResponseView,
)
    requires
        rests(state),
        !cycle_over(state),
    ensures
        is_sound(answer_step(state, kind, is_cancelled, response).turn, kind),
{
    let no_outputs: Seq<(ToolCallView, Seq<char>, bool)> = Seq::empty();
    let kept = answered(state, kind, response);
    let after = taken_in(state, kind, response);
    if response.calls.len() == 0 {
        law_round_is_replayable(state, kind, response, no_outputs);
        assert(tools_answered(kept, kind, no_outputs) == kept);
        if reminds(state, response) {
            let blocks = seq![BlockView::Text { text: reminder_text(kept.reply.failed->0) }];
            lemma_user(kind, blocks);
            lemma_push_other(kept.raw, raw_user(kind, blocks));
        }
        assert(rests(after));
        lemma_next_round(after, kind, is_cancelled);
    } else {
        assert(after == kept);
        assert(is_batch(after, kind, response.calls, state, response, no_outputs));
        assert(in_batch(after, kind, response.calls, 0));
        match step_for(state, response) {
            AnswerStepView::RunTools { narration, browses, calls } => {
                lemma_next_tool(after, kind, calls, 0, browses, is_cancelled);
            },
            _ => {},
        }
    }
}

/// Whatever happens, a sound turn stays sound.
pub proof fn law_every_step_is_sound(
    turn: RunningTurn,
    kind: ApiKind,
    limit: Option<u64>,
    is_cancelled: bool,
    happening: HappeningView,
)
    requires
        is_sound(turn, kind),
    ensures
        is_sound(turn_step(turn, kind, limit, is_cancelled, happening).turn, kind),
{
    let state = turn.state;
    match (turn.phase, happening) {
        (PhaseView::Ready, HappeningView::Begun) => {
            lemma_next_round(state, kind, is_cancelled);
        },
        (PhaseView::Beating, HappeningView::Delivered(_)) => {
            lemma_next_round(state, kind, is_cancelled);
        },
        (PhaseView::Calling, HappeningView::Answered(response)) => {
            let spent_state = LoopView { tokens: spent(state.tokens, response), ..state };
            law_compacted_is_replayable(spent_state);
            let ready = counted(state, limit, response);
            assert(rests(ready) && !cycle_over(ready));
            lemma_answer_is_sound(ready, kind, is_cancelled, response);
        },
        (PhaseView::Asking, HappeningView::Output { content, is_error }) => {
            law_additions_are_replayable(
                state,
                kind,
                "embedded-ask-user"@,
                content,
                is_error,
                Seq::empty(),
            );
            lemma_next_round(
                tool_answered(state, kind, "embedded-ask-user"@, content, is_error),
                kind,
                is_cancelled,
            );
        },
        (PhaseView::Narrating { calls, browses }, HappeningView::Delivered(_)) => {
            lemma_next_tool(state, kind, calls, 0, browses, is_cancelled);
        },
        (
            PhaseView::Running { calls, done, browses },
            HappeningView::Output { content, is_error },
        ) => {
            lemma_batch_goes_on(state, kind, calls, done, content, is_error);
            lemma_next_tool(
                call_answered(state, kind, calls[done as int], content, is_error),
                kind,
                calls,
                done + 1,
                browses,
                is_cancelled,
            );
        },
        (PhaseView::Running { calls, done, browses }, HappeningView::Interrupted) => {
            lemma_batch_is_cancelled(state, kind, calls, done);
        },
        (PhaseView::Showing, HappeningView::Images(images)) => {
            law_additions_are_replayable(
                state,
                kind,
                Seq::empty(),
                Seq::empty(),
                false,
                images,
            );
            let shown = images_shown(state, kind, images);
            lemma_next_round(round_over(shown), kind, is_cancelled);
        },
        _ => {},
    }
}

/// A turn after what has happened, one thing after the other; each comes with
/// whether the turn has been cancelled by then.
pub open spec fn after_all(
    turn: RunningTurn,
    kind: ApiKind,
    limit: Option<u64>,
    happenings: Seq<(bool, HappeningView)>,
) -> RunningTurn
    decreases happenings.len(),
{
    if happenings.len() == 0 {
        turn
    } else {
        turn_step(
            after_all(turn, kind, limit, happenings.drop_last()),
            kind,
            limit,
            happenings.last().0,
            happenings.last().1,
        ).turn
    }
}

/// However a turn goes that was begun with a conversation that can be sent
/// again, it is sound at any time: unless it has failed, its conversation can be
/// sent again, or can be as soon as the tools that are being run have answered,
/// and the counts of its rounds agree.
pub proof fn law_every_state_is_sound(
    kind: ApiKind,
    history: Seq<MessageView>,
    raw: Seq<JsonView>,
    blocks: Seq<BlockView>,
    max_iterations: Option<usize>,
    reply_tool: bool,
    limit: Option<u64>,
    happenings: Seq<(bool, HappeningView)>,
)
    requires
        replayable(raw),
    ensures
        is_sound(
            after_all(
                RunningTurn {
                    state: started(kind, history, raw, blocks, max_iterations, reply_tool),
                    phase: PhaseView::Ready,
                },
                kind,
                limit,
                happenings,
            ),
            kind,
        ),
    decreases happenings.len(),
{
    let state = started(kind, history, raw, blocks, max_iterations, reply_tool);
    let turn = RunningTurn { state, phase: PhaseView::Ready };
    if happenings.len() == 0 {
        law_start_is_replayable(kind, history, raw, blocks, max_iterations, reply_tool);
        law_rounds_agree(state, kind, history, raw, blocks, max_iterations, reply_tool);
    } else {
        law_every_state_is_sound(
            kind,
            history,
            raw,
            blocks,
            max_iterations,
            reply_tool,
            limit,
            happenings.drop_last(),
        );
        law_every_step_is_sound(
            after_all(turn, kind, limit, happenings.drop_last()),
            kind,
            limit,
            happenings.last().0,
            happenings.last().1,
        );
    }
}

} // verus!
