//! How a turn goes from its first step to its last.
use crate::agent_loop::context::{flat, pair_reading, raw_user, PairReading};
use crate::agent_loop::embedded_ask::{found_tag, without_malformed, without_tags};
use crate::agent_loop::response::{
    all_empty, answer_message, raw_answer, ResponseView, ToolCallView,
};
use crate::agent_loop::run::{
    answered, ask_arguments, cancelled, closed, empty_calls_error, finished, heartbeat_text,
    images_shown, law_only_a_last_reply_closes, no_reply_text, offered, one_closes, reminds, spent,
    started, step_for, taken_in, tokens_fit, tools_answered, AnswerStepView, LoopView, ReplyView,
    TokenView,
};
use crate::agent_loop::turn::{
    asked_input, counted, next_round, turn_step, ActionView, EndingView, HappeningView, NoticeView,
    PhaseView, RunningTurn, StepView,
};
use crate::json::{number_view, JsonView};
use crate::numbers::decimal_text;
use crate::provider::select::ApiKind;
use crate::session::{cut_down, last_of};
use crate::text::{all_white, is_white, occurs_at};
use crate::types::{blocks_text, BlockView, ImageView, MessageView, Role, ToolView};
use vstd::prelude::*;
use vstd::string::*;

verus! {

/// A turn begins with what was said before, unchanged, and behind it what the
/// user says now; nothing is spent, counted or replied yet, and a cycle has as
/// many rounds as was asked for.
pub proof fn law_turn_begins_with_what_is_said(
    kind: ApiKind,
    history: Seq<MessageView>,
    raw: Seq<JsonView>,
    blocks: Seq<BlockView>,
    max_iterations: Option<usize>,
    reply_tool: bool,
)
    ensures
        ({
            let state = started(kind, history, raw, blocks, max_iterations, reply_tool);
            &&& state.history.len() == history.len() + 1
            &&& state.history.drop_last() == history
            &&& state.history.last() == (MessageView { role: Role::User, content: blocks })
            &&& state.raw.len() == raw.len() + 1
            &&& state.raw.drop_last() == raw
            &&& state.raw.last() == raw_user(kind, blocks)
            &&& state.max_iterations == if max_iterations is Some {
                max_iterations->0 as nat
            } else {
                100
            }
            &&& state.iter_in_cycle == 0 && state.cycle_count == 0 && state.total_iterations == 0
            &&& state.empty_rounds == 0
            &&& state.tokens.input == 0 && state.tokens.output == 0 && state.tokens.context_input
                == 0
            &&& state.tokens.cache_hit == 0 && state.tokens.cache_creation == 0
                && state.tokens.reasoning == 0
            &&& state.reply.tool == reply_tool
            &&& !state.reply.sent && !state.reply.closing && !state.reply.only
            &&& state.reply.failed is None && state.reply.text is None
        }),
{
    let state = started(kind, history, raw, blocks, max_iterations, reply_tool);
    assert(state.history.drop_last() =~= history);
    assert(state.raw.drop_last() =~= raw);
}

/// Before each round one of four things is done. The turn ends where the model
/// has ended it with its reply; else it ends where it was cancelled; else, at the
/// end of a cycle, the user is told that it goes on, and a new cycle begins; else
/// the model is called. Nothing else changes.
pub proof fn law_one_of_four_things_is_next(state: LoopView, is_cancelled: bool)
    requires
        state.cycle_count < usize::MAX,
    ensures
        ({
            let step = next_round(state, is_cancelled);
            let full = state.iter_in_cycle >= state.max_iterations;
            &&& step.turn.phase == PhaseView::Over(EndingView::Closed) <==> state.reply.closing
            &&& step.turn.phase == PhaseView::Over(EndingView::Cancelled) <==> !state.reply.closing
                && is_cancelled
            &&& step.action is Deliver <==> !state.reply.closing && !is_cancelled && full
            &&& step.action is Call <==> !state.reply.closing && !is_cancelled && !full
            &&& step.notices.len() == 0
            &&& step.action is Deliver ==> step.turn.phase is Beating && step.turn.state == (
            LoopView { iter_in_cycle: 0, cycle_count: state.cycle_count + 1, ..state })
            &&& !(step.action is Deliver) ==> step.turn.state == state
            &&& step.action is Call ==> step.turn.phase is Calling
        }),
{
}

/// The calls, each with what its tool has answered.
pub open spec fn with_outputs(calls: Seq<ToolCallView>, outputs: Seq<(Seq<char>, bool)>) -> Seq<
    (ToolCallView, Seq<char>, bool),
> {
    Seq::new(outputs.len(), |i: int| (calls[i], outputs[i].0, outputs[i].1))
}

/// The step behind the answers of tools, one after the other.
pub open spec fn after_outputs(
    turn: RunningTurn,
    kind: ApiKind,
    limit: Option<u64>,
    outputs: Seq<(Seq<char>, bool)>,
) -> StepView
    decreases outputs.len(),
{
    let last = HappeningView::Output { content: outputs.last().0, is_error: outputs.last().1 };
    if outputs.len() <= 1 {
        turn_step(turn, kind, limit, false, last)
    } else {
        turn_step(
            after_outputs(turn, kind, limit, outputs.drop_last()).turn,
            kind,
            limit,
            false,
            last,
        )
    }
}

/// Every tool of a batch is run, in the order of the calls, each behind the
/// answer of the one before, and all their answers are taken in; then the images
/// are collected, and nothing else is done meanwhile.
pub proof fn law_every_tool_is_run(
    turn: RunningTurn,
    kind: ApiKind,
    limit: Option<u64>,
    calls: Seq<ToolCallView>,
    browses: bool,
    outputs: Seq<(Seq<char>, bool)>,
)
    requires
        turn.phase == (PhaseView::Running { calls, done: 0, browses }),
        0 < outputs.len() <= calls.len(),
    ensures
        ({
            let step = after_outputs(turn, kind, limit, outputs);
            let n = outputs.len();
            &&& step.turn.state == tools_answered(turn.state, kind, with_outputs(calls, outputs))
            &&& step.notices.len() == 0
            &&& n < calls.len() ==> step.action == (ActionView::RunTool {
                call: calls[n as int],
                browses,
            }) && step.turn.phase == (PhaseView::Running { calls, done: n, browses })
            &&& n == calls.len() ==> step.action is CollectImages && step.turn.phase is Showing
        }),
    decreases outputs.len(),
{
    let rest = outputs.drop_last();
    let all = with_outputs(calls, outputs);
    assert(all.drop_last() =~= with_outputs(calls, rest));
    assert(all.last() == (calls[outputs.len() - 1], outputs.last().0, outputs.last().1));
    if outputs.len() > 1 {
        law_every_tool_is_run(turn, kind, limit, calls, browses, rest);
    } else {
        assert(with_outputs(calls, rest).len() == 0);
        assert(tools_answered(turn.state, kind, with_outputs(calls, rest)) == turn.state);
    }
}

/// After a batch of tools the turn ends exactly where one of the replies among
/// them was sent and was not one after which the model goes on, or the turn was
/// to end before. Replies after which the model goes on, however many, leave it
/// to the next round.
pub proof fn law_progress_updates_leave_the_turn_open(
    turn: RunningTurn,
    kind: ApiKind,
    limit: Option<u64>,
    calls: Seq<ToolCallView>,
    browses: bool,
    outputs: Seq<(Seq<char>, bool)>,
)
    requires
        turn.phase == (PhaseView::Running { calls, done: 0, browses }),
        0 < outputs.len() == calls.len(),
        turn.state.iter_in_cycle < usize::MAX,
        turn.state.cycle_count < usize::MAX,
        turn.state.total_iterations < usize::MAX,
    ensures
        ({
            let collecting = after_outputs(turn, kind, limit, outputs).turn;
            let step = turn_step(
                collecting,
                kind,
                limit,
                false,
                HappeningView::Images(Seq::empty()),
            );
            let ends = turn.state.reply.closing || (turn.state.reply.tool && one_closes(
                with_outputs(calls, outputs),
            ));
            &&& ends ==> step.turn.phase == PhaseView::Over(EndingView::Closed)
            &&& !ends ==> !(step.turn.phase is Over)
            &&& !ends && turn.state.iter_in_cycle + 1 < turn.state.max_iterations ==> step.action
                is Call
            &&& step.turn.state.total_iterations == turn.state.total_iterations + 1
        }),
{
    law_every_tool_is_run(turn, kind, limit, calls, browses, outputs);
    let all = with_outputs(calls, outputs);
    law_only_a_last_reply_closes(turn.state, kind, all);
    crate::agent_loop::run::law_tool_answers_are_kept(turn.state, kind, all);
}

/// Whether the text says anything.
pub open spec fn says_something(text: Seq<char>) -> bool {
    exists|i: int| 0 <= i < text.len() && !is_white(#[trigger] text[i])
}

proof fn lemma_says_something(text: Seq<char>)
    ensures
        says_something(text) == (crate::text::trim(text).len() > 0),
{
    crate::text::law_trim_takes_white_space_alone(text);
    if !says_something(text) {
        assert(all_white(text));
    }
}

/// What an answer leads to depends on what it holds. With tool calls that have
/// arguments, those calls are run, all of them and as they are. Without tool
/// calls and without a question the turn is over, with the text as its answer,
/// which is delivered wherever it says anything: as it is, or, where the model
/// should have replied by its tool, with a trace of that behind it.
pub proof fn law_answer_leads_on(state: LoopView, response: ResponseView)
    ensures
        response.calls.len() > 0 && !all_empty(response.calls) ==> (step_for(state, response)
            matches AnswerStepView::RunTools { calls, narration, browses } && calls
            == response.calls && (browses == exists|i: int|
            0 <= i < calls.len() && (#[trigger] calls[i]).name == "context_browse"@) && (narration
            is Some == (says_something(response.text) && exists|i: int|
            0 <= i < calls.len() && (#[trigger] calls[i]).name == "ask_user"@))),
        response.calls.len() == 0 && found_tag(without_malformed(response.text)) is None && !(
        state.reply.tool && state.reply.failed is Some && says_something(
            without_malformed(response.text),
        )) ==> step_for(state, response) == (AnswerStepView::Finish {
            text: without_malformed(response.text),
            reply: if !says_something(without_malformed(response.text)) {
                None
            } else if state.reply.tool {
                Some(without_malformed(response.text) + "\n\n— auto-delivered"@)
            } else {
                Some(without_malformed(response.text))
            },
            no_reply: !says_something(response.text),
        }),
        response.calls.len() == 0 && found_tag(without_malformed(response.text)) is None
            && state.reply.tool && state.reply.failed is Some && says_something(
            without_malformed(response.text),
        ) ==> step_for(state, response) is Remind,
        response.calls.len() == 0 && found_tag(without_malformed(response.text)) is Some
            ==> step_for(state, response) is Ask,
{
    lemma_says_something(response.text);
    lemma_says_something(without_malformed(response.text));
}

/// The loop is given up over empty calls exactly where this round and the ones
/// before it that were empty in a row are three or more.
pub proof fn law_given_up_over_empty_calls(state: LoopView, response: ResponseView)
    ensures
        step_for(state, response) is Abort <==> response.calls.len() > 0 && all_empty(
            response.calls,
        ) && state.empty_rounds + 1 >= 3,
{
}

/// An answer is kept once: as a message of the conversation and, where it has
/// text or calls, in the form of the provider; what was kept before stays. It
/// changes nothing of what is spent, counted and replied, but that the model may
/// do again what it likes.
pub proof fn law_answer_is_kept_once(state: LoopView, kind: ApiKind, response: ResponseView)
    ensures
        ({
            let after = answered(state, kind, response);
            &&& after.history.len() == state.history.len() + 1
            &&& after.history.drop_last() == state.history
            &&& after.history.last() == answer_message(response)
            &&& response.text.len() == 0 && response.calls.len() == 0 ==> after.raw == state.raw
            &&& response.text.len() > 0 || response.calls.len() > 0 ==> {
                &&& after.raw.len() == state.raw.len() + 1
                &&& after.raw.drop_last() == state.raw
                &&& after.raw.last() == raw_answer(kind, response)
            }
            &&& after.tokens == state.tokens
            &&& after.max_iterations == state.max_iterations
            &&& after.iter_in_cycle == state.iter_in_cycle
            &&& after.cycle_count == state.cycle_count
            &&& after.total_iterations == state.total_iterations
            &&& after.reply.tool == state.reply.tool && after.reply.failed == state.reply.failed
            &&& after.reply.sent == state.reply.sent && after.reply.text == state.reply.text
            &&& after.reply.closing == state.reply.closing && !after.reply.only
            &&& response.calls.len() == 0 ==> after.empty_rounds == state.empty_rounds
            &&& response.calls.len() > 0 && all_empty(response.calls) ==> after.empty_rounds
                == state.empty_rounds + 1
            &&& response.calls.len() > 0 && !all_empty(response.calls) ==> after.empty_rounds == 0
        }),
{
    let after = answered(state, kind, response);
    assert(after.history.drop_last() =~= state.history);
    if response.text.len() > 0 || response.calls.len() > 0 {
        assert(after.raw.drop_last() =~= state.raw);
    }
}

/// A model that is reminded is told the error of its reply, behind its answer
/// and as the user; any other is told nothing. While it is reminded it is offered
/// its tool to reply by and no other; at any other time it is offered all tools.
pub proof fn law_reminder_tells_the_error(
    state: LoopView,
    kind: ApiKind,
    response: ResponseView,
    tools: Seq<ToolView>,
)
    ensures
        ({
            let kept = answered(state, kind, response);
            let after = taken_in(state, kind, response);
            let text =
                "[System reminder] Your last jyc_reply_message call FAILED and the reply was NOT delivered: "@
                + state.reply.failed->0
                + ". Plain text does not reach the user. Call jyc_reply_message again with a corrected message."@;
            let told = seq![BlockView::Text { text }];
            &&& reminds(state, response) ==> after == (LoopView {
                history: kept.history.push(MessageView { role: Role::User, content: told }),
                raw: kept.raw.push(raw_user(kind, told)),
                reply: ReplyView { failed: None, only: true, ..kept.reply },
                ..kept
            })
            &&& !reminds(state, response) ==> after == kept
            &&& offered(after.reply, tools) == if reminds(state, response) {
                tools.filter(|tool: ToolView| tool.name == "jyc_reply_message"@)
            } else {
                tools
            }
        }),
    decreases tools.len(),
{
    reveal(Seq::filter);
    let after = taken_in(state, kind, response);
    if tools.len() > 0 {
        law_reminder_tells_the_error(state, kind, response, tools.drop_last());
    }
    if reminds(state, response) {
        assert(offered(after.reply, tools) =~= tools.filter(
            |tool: ToolView| tool.name == "jyc_reply_message"@,
        ));
    }
}

/// Every token of an answer is counted once, each under its own name, and the
/// size of the context is what the last answer that told any has told.
pub proof fn law_every_token_is_counted(tokens: TokenView, response: ResponseView)
    ensures
        ({
            let after = spent(tokens, response);
            &&& after.input == tokens.input + response.input_tokens
            &&& after.output == tokens.output + response.output_tokens
            &&& after.cache_hit == tokens.cache_hit + response.cache_hit_tokens
            &&& after.cache_creation == tokens.cache_creation + response.cache_creation_tokens
            &&& after.reasoning == tokens.reasoning + response.reasoning_tokens
            &&& response.input_tokens > 0 ==> after.context_input == response.input_tokens
            &&& response.input_tokens == 0 ==> after.context_input == tokens.context_input
        }),
{
}

/// The conversation is cut down exactly where a limit is set and the context,
/// as the answer tells it, has come up to it. What was spent stays counted, and
/// nothing but the conversation and the size of the context changes. Those who
/// watch are told exactly then.
pub proof fn law_full_context_is_cut_down(
    state: LoopView,
    limit: Option<u64>,
    response: ResponseView,
)
    ensures
        ({
            let after = counted(state, limit, response);
            let size = if response.input_tokens > 0 {
                response.input_tokens as nat
            } else {
                state.tokens.context_input
            };
            let full = limit is Some && size >= limit->0;
            &&& full ==> after.raw == cut_down(state.raw, 3, None) && after.history == flat(
                last_of(pair_reading(state.history).pairs, 3),
            ) && after.tokens.context_input == 0
            &&& !full ==> after.raw == state.raw && after.history == state.history
                && after.tokens.context_input == size
            &&& after.tokens.input == state.tokens.input + response.input_tokens
            &&& after.tokens.output == state.tokens.output + response.output_tokens
            &&& after.reply == state.reply
            &&& after.total_iterations == state.total_iterations
            &&& after.iter_in_cycle == state.iter_in_cycle
            &&& after.cycle_count == state.cycle_count
            &&& after.empty_rounds == state.empty_rounds
            &&& crate::agent_loop::turn::compaction_notice(state, limit, response).len() == if full {
                1nat
            } else {
                0nat
            }
        }),
{
}

/// The images that tools have loaded are shown to the model as the user's: a
/// text that tells how many they are, and behind it every image, in order. Where
/// there are none, nothing is shown.
pub proof fn law_loaded_images_are_shown(state: LoopView, kind: ApiKind, images: Seq<ImageView>)
    ensures
        ({
            let after = images_shown(state, kind, images);
            &&& images.len() == 0 ==> after == state
            &&& images.len() > 0 ==> {
                let message = after.history.last();
                &&& after.history.len() == state.history.len() + 1
                &&& after.history.drop_last() == state.history
                &&& after.raw.len() == state.raw.len() + 1
                &&& after.raw.drop_last() == state.raw
                &&& message.role == Role::User
                &&& after.raw.last() == raw_user(kind, message.content)
                &&& message.content.len() == 1 + images.len()
                &&& message.content[0] == (BlockView::Text {
                    text: "["@ + decimal_text(images.len())
                        + " image(s) loaded by tool — see attached content]"@,
                })
                &&& forall|i: int|
                    #![trigger images[i]]
                    0 <= i < images.len() ==> message.content[1 + i] == (BlockView::Image {
                        source: images[i],
                    })
                &&& after.tokens == state.tokens && after.reply == state.reply
                &&& after.total_iterations == state.total_iterations
                &&& after.iter_in_cycle == state.iter_in_cycle
                &&& after.cycle_count == state.cycle_count
                &&& after.empty_rounds == state.empty_rounds
            }
        }),
{
    let after = images_shown(state, kind, images);
    if images.len() > 0 {
        assert(after.history.drop_last() =~= state.history);
        assert(after.raw.drop_last() =~= state.raw);
    }
}

/// An answer in plain text is delivered, and once that has been tried the turn
/// is over with that answer, delivered or not. A question of the model's is put
/// to the user, and what they answer is kept as a tool's answer; then the turn
/// goes on. A call that fails ends the turn with its error, unless the turn was
/// cancelled.
pub proof fn law_what_was_done_is_told(
    state: LoopView,
    kind: ApiKind,
    limit: Option<u64>,
    is_cancelled: bool,
    text: Seq<char>,
    input: JsonView,
    delivered: bool,
    error: bool,
)
    ensures
        turn_step(
            RunningTurn { state, phase: PhaseView::Replying { text } },
            kind,
            limit,
            is_cancelled,
            HappeningView::Delivered(delivered),
        ).turn == (RunningTurn {
            state,
            phase: PhaseView::Over(EndingView::Finished { text, delivered }),
        }),
        turn_step(
            RunningTurn { state, phase: PhaseView::Telling { input } },
            kind,
            limit,
            is_cancelled,
            HappeningView::Delivered(delivered),
        ) == (StepView {
            turn: RunningTurn { state, phase: PhaseView::Asking },
            notices: Seq::empty(),
            action: ActionView::Ask(input),
        }),
        turn_step(
            RunningTurn { state, phase: PhaseView::Asking },
            kind,
            limit,
            false,
            HappeningView::Output { content: text, is_error: error },
        ).turn.state.history.take(state.history.len() as int + 1) == state.history.push(
            MessageView {
                role: Role::Tool,
                content: seq![
                    BlockView::ToolResult {
                        tool_use_id: "embedded-ask-user"@,
                        content: text,
                        is_error: error,
                    },
                ],
            },
        ),
        turn_step(
            RunningTurn { state, phase: PhaseView::Calling },
            kind,
            limit,
            is_cancelled,
            HappeningView::CallFailed(text),
        ).turn == (RunningTurn {
            state,
            phase: PhaseView::Over(
                if is_cancelled {
                    EndingView::Cancelled
                } else {
                    EndingView::Failed(text)
                },
            ),
        }),
{
    let asked = turn_step(
        RunningTurn { state, phase: PhaseView::Asking },
        kind,
        limit,
        false,
        HappeningView::Output { content: text, is_error: error },
    ).turn.state.history;
    assert(asked.take(state.history.len() as int + 1) =~= asked);
}

/// What is told of the reply at the end of a turn. With an answer: that answer,
/// whether it was delivered, and that the tool has sent it where the loop has
/// sent it by the tool; else what the tool had sent before. With a reply of the
/// model's own: that reply, delivered where it says anything. Cancelled: that
/// nothing was delivered, and what the tool had sent.
pub proof fn law_end_tells_of_the_reply(reply: ReplyView, text: Seq<char>, delivered: bool)
    ensures
        ({
            let end = finished(reply, text, delivered);
            &&& end.text == text && end.delivered == delivered
            &&& end.by_tool == (reply.sent || (reply.tool && delivered))
            &&& end.auto_delivered == (reply.tool && delivered)
            &&& reply.tool && delivered ==> end.tool_text == Some(text + "\n\n— auto-delivered"@)
            &&& !(reply.tool && delivered) ==> end.tool_text == reply.text
        }),
        ({
            let end = closed(reply);
            &&& end.text.len() == 0 && end.by_tool == reply.sent && !end.auto_delivered
            &&& end.tool_text == reply.text && end.delivered == (reply.text is Some)
        }),
        ({
            let end = cancelled(reply);
            &&& end.text.len() == 0 && end.by_tool == reply.sent && !end.auto_delivered
            &&& end.tool_text == reply.text && !end.delivered
        }),
{
}

/// The tool that asks the user is called with the question, all answers to
/// choose from, in order, and how long to wait, or nothing.
pub proof fn law_question_is_asked_whole(
    question: Seq<char>,
    options: Seq<Seq<char>>,
    timeout: Option<u64>,
)
    ensures
        ({
            let input = ask_arguments(question, options, timeout);
            &&& input.field("question"@) == Some(JsonView::Text(question))
            &&& match input.field("options"@) {
                Some(JsonView::Array(items)) => items.len() == options.len() && forall|i: int|
                    #![trigger options[i]]
                    0 <= i < options.len() ==> items[i] == JsonView::Text(options[i]),
                _ => false,
            }
            &&& input.field("timeout_seconds"@) == Some(
                match timeout {
                    Some(secs) => number_view(secs),
                    None => JsonView::Null,
                },
            )
        }),
{
    reveal_strlit("question");
    reveal_strlit("options");
    reveal_strlit("timeout_seconds");
    assert("question"@.len() == 8 && "options"@.len() == 7 && "timeout_seconds"@.len() == 15);
}

/// A pair of a conversation is what the user said last and the first answer
/// behind it that has text, as plain text: not an earlier one, and not a later
/// one.
pub proof fn law_pair_is_the_first_answer(
    before: Seq<MessageView>,
    said: MessageView,
    rest: Seq<MessageView>,
    i: int,
)
    requires
        said.role == Role::User,
        forall|k: int| 0 <= k < rest.len() ==> (#[trigger] rest[k]).role != Role::User,
        0 <= i < rest.len(),
        rest[i].role == Role::Assistant,
        blocks_text(rest[i].content).len() > 0,
        forall|k: int|
            0 <= k < i && (#[trigger] rest[k]).role == Role::Assistant ==> blocks_text(
                rest[k].content,
            ).len() == 0,
    ensures
        pair_reading(before.push(said) + rest).pairs == pair_reading(before).pairs.push(
            (
                said,
                MessageView {
                    role: Role::Assistant,
                    content: seq![BlockView::Text { text: blocks_text(rest[i].content) }],
                },
            ),
        ),
    decreases rest.len(),
{
    let all = before.push(said) + rest;
    let front = rest.drop_last();
    assert(forall|k: int| 0 <= k < front.len() ==> front[k] == rest[k]);
    assert(all.drop_last() =~= before.push(said) + front);
    assert(all.last() == rest[rest.len() - 1]);
    if i == rest.len() - 1 {
        lemma_no_answer_yet(before, said, front);
    } else {
        law_pair_is_the_first_answer(before, said, front, i);
        lemma_answered(before, said, front, i);
    }
}

proof fn lemma_no_answer_yet(before: Seq<MessageView>, said: MessageView, rest: Seq<MessageView>)
    requires
        said.role == Role::User,
        forall|k: int| 0 <= k < rest.len() ==> (#[trigger] rest[k]).role != Role::User,
        forall|k: int|
            0 <= k < rest.len() && (#[trigger] rest[k]).role == Role::Assistant ==> blocks_text(
                rest[k].content,
            ).len() == 0,
    ensures
        pair_reading(before.push(said) + rest) == (PairReading {
            pairs: pair_reading(before).pairs,
            said: Some(said),
        }),
    decreases rest.len(),
{
    let all = before.push(said) + rest;
    if rest.len() == 0 {
        assert(all =~= before.push(said));
        assert(all.drop_last() =~= before);
    } else {
        let front = rest.drop_last();
        assert(forall|k: int| 0 <= k < front.len() ==> front[k] == rest[k]);
        lemma_no_answer_yet(before, said, front);
        assert(all.drop_last() =~= before.push(said) + front);
        assert(all.last() == rest[rest.len() - 1]);
    }
}

proof fn lemma_answered(
    before: Seq<MessageView>,
    said: MessageView,
    rest: Seq<MessageView>,
    i: int,
)
    requires
        said.role == Role::User,
        forall|k: int| 0 <= k < rest.len() ==> (#[trigger] rest[k]).role != Role::User,
        0 <= i < rest.len(),
        rest[i].role == Role::Assistant,
        blocks_text(rest[i].content).len() > 0,
        forall|k: int|
            0 <= k < i && (#[trigger] rest[k]).role == Role::Assistant ==> blocks_text(
                rest[k].content,
            ).len() == 0,
    ensures
        pair_reading(before.push(said) + rest).said is None,
    decreases rest.len(),
{
    let all = before.push(said) + rest;
    let front = rest.drop_last();
    assert(forall|k: int| 0 <= k < front.len() ==> front[k] == rest[k]);
    assert(all.drop_last() =~= before.push(said) + front);
    assert(all.last() == rest[rest.len() - 1]);
    if i == rest.len() - 1 {
        lemma_no_answer_yet(before, said, front);
    } else {
        lemma_answered(before, said, front, i);
    }
}

/// What an answer leads to is done at once. Its tools are run from the first on;
/// where it has narrated and asks the user, the narration is delivered before,
/// without its tags. A last answer is delivered, and nothing is told; one that
/// says nothing ends the turn, and those who watch are told so. A question in its
/// text is put to the user, behind the rest of the text, if that says anything.
pub proof fn law_answer_is_acted_on(
    state: LoopView,
    kind: ApiKind,
    response: ResponseView,
    delivered: bool,
)
    requires
        tokens_fit(spent(state.tokens, response)),
        state.empty_rounds < u32::MAX,
    ensures
        ({
            let step = turn_step(
                RunningTurn { state, phase: PhaseView::Calling },
                kind,
                None,
                false,
                HappeningView::Answered(response),
            );
            let text = without_malformed(response.text);
            let plain = response.calls.len() == 0 && found_tag(text) is None;
            let narrates = says_something(response.text) && exists|i: int|
                0 <= i < response.calls.len() && (#[trigger] response.calls[i]).name == "ask_user"@;
            let browses = exists|i: int|
                0 <= i < response.calls.len() && (#[trigger] response.calls[i]).name
                    == "context_browse"@;
            let runs = response.calls.len() > 0 && !all_empty(response.calls);
            &&& runs && !narrates ==> step.turn.phase == (PhaseView::Running {
                calls: response.calls,
                done: 0,
                browses,
            }) && step.action == (ActionView::RunTool { call: response.calls[0], browses })
                && step.notices.len() == 0
            &&& runs && narrates ==> step.action == ActionView::Deliver(
                without_tags(response.text),
            ) && turn_step(
                step.turn,
                kind,
                None,
                false,
                HappeningView::Delivered(delivered),
            ).action == (ActionView::RunTool { call: response.calls[0], browses })
                && step.notices.len() == 0
            &&& plain && !says_something(text) ==> step.turn.phase == PhaseView::Over(
                EndingView::Finished { text, delivered: false },
            ) && (!says_something(response.text) ==> step.notices.len() == 1 && step.notices[0]
                is NoReply)
            &&& plain && says_something(text) && !(state.reply.tool && state.reply.failed is Some)
                ==> step.turn.phase == (PhaseView::Replying { text }) && step.action
                == ActionView::Deliver(
                if state.reply.tool {
                    text + "\n\n— auto-delivered"@
                } else {
                    text
                },
            ) && (says_something(response.text) ==> step.notices.len() == 0)
            &&& response.calls.len() == 0 && found_tag(text) is Some ==> {
                let input = asked_input(found_tag(text)->0.asked->0);
                if says_something(without_tags(text)) {
                    &&& step.action == ActionView::Deliver(without_tags(text))
                    &&& step.turn.phase == (PhaseView::Telling { input })
                } else {
                    step.action == ActionView::Ask(input) && step.turn.phase is Asking
                }
            }
            &&& runs || plain && !(state.reply.tool && state.reply.failed is Some)
                ==> step.turn.state == answered(
                LoopView { tokens: spent(state.tokens, response), ..state },
                kind,
                response,
            )
        }),
{
    lemma_says_something(response.text);
    lemma_says_something(without_malformed(response.text));
    lemma_says_something(without_tags(without_malformed(response.text)));
}

/// Where a tool is interrupted, the answer that called it is forgotten, and the
/// round ends without running another.
pub proof fn law_interrupted_round_is_forgotten(
    state: LoopView,
    kind: ApiKind,
    limit: Option<u64>,
    is_cancelled: bool,
    response: ResponseView,
    outputs: Seq<(ToolCallView, Seq<char>, bool)>,
    browses: bool,
)
    requires
        response.calls.len() > 0,
        outputs.len() < response.calls.len(),
    ensures
        ({
            let running = RunningTurn {
                state: tools_answered(answered(state, kind, response), kind, outputs),
                phase: PhaseView::Running { calls: response.calls, done: outputs.len(), browses },
            };
            let step = turn_step(running, kind, limit, is_cancelled, HappeningView::Interrupted);
            &&& step.turn.state.history == state.history
            &&& step.turn.state.raw == state.raw
            &&& step.turn.phase is Showing
            &&& step.action is CollectImages
            &&& step.notices.len() == 0
        }),
{
    crate::agent_loop::run::law_cancelling_forgets_the_answer(state, kind, response, outputs);
}

/// What is told at the end of a round counts the cycle and the rounds, this one
/// with them, and gives the size of the context, in this order.
pub proof fn law_progress_is_counted(
    state: LoopView,
    kind: ApiKind,
    limit: Option<u64>,
    is_cancelled: bool,
)
    requires
        state.iter_in_cycle < usize::MAX,
        state.cycle_count < usize::MAX,
        state.total_iterations < usize::MAX,
    ensures
        ({
            let step = turn_step(
                RunningTurn { state, phase: PhaseView::Showing },
                kind,
                limit,
                is_cancelled,
                HappeningView::Images(Seq::empty()),
            );
            &&& step.notices.len() == 1
            &&& step.notices[0] matches NoticeView::Progress(text) && {
                &&& text.len() > 0
                &&& text == "cycle "@ + decimal_text(state.cycle_count + 1) + ", iteration "@
                    + decimal_text(state.total_iterations + 1) + " ("@ + decimal_text(
                    state.iter_in_cycle + 1,
                ) + "), "@ + decimal_text(state.tokens.context_input) + " tokens"@
            }
            &&& step.turn.state.total_iterations == state.total_iterations + 1
            &&& step.turn.phase is Calling ==> step.turn.state.iter_in_cycle == state.iter_in_cycle
                + 1 && step.turn.state.cycle_count == state.cycle_count
            &&& step.turn.state.history == state.history && step.turn.state.raw == state.raw
            &&& step.turn.state.tokens == state.tokens && step.turn.state.reply == state.reply
        }),
{
    reveal_strlit("cycle ");
    assert(state.history =~= images_shown(state, kind, Seq::empty()).history);
}

/// The user is told how many cycles are over and how many rounds they took; the
/// error of a turn that is given up counts the empty rounds; and a turn without
/// a reply tells its rounds.
pub proof fn law_counts_are_told_in_words(cycle: nat, rounds: nat)
    ensures
        exists|i: int, j: int|
            #[trigger] occurs_at(
                heartbeat_text(cycle, rounds),
                "cycle "@ + decimal_text(cycle),
                i,
            ) && #[trigger] occurs_at(
                heartbeat_text(cycle, rounds),
                "~"@ + decimal_text(rounds) + " tool iterations completed."@,
                j,
            ) && i < j,
        exists|i: int| #[trigger]
            occurs_at(
                empty_calls_error(rounds),
                decimal_text(rounds) + " consecutive iterations"@,
                i,
            ),
        exists|i: int| #[trigger]
            occurs_at(
                no_reply_text(rounds),
                "(total_iterations="@ + decimal_text(rounds) + ")"@,
                i,
            ),
{
    lemma_heartbeat(cycle, rounds);
    lemma_given_up(rounds);
    lemma_no_reply(rounds);
}

proof fn lemma_heartbeat(cycle: nat, rounds: nat)
    ensures
        exists|i: int, j: int|
            #[trigger] occurs_at(
                heartbeat_text(cycle, rounds),
                "cycle "@ + decimal_text(cycle),
                i,
            ) && #[trigger] occurs_at(
                heartbeat_text(cycle, rounds),
                "~"@ + decimal_text(rounds) + " tool iterations completed."@,
                j,
            ) && i < j,
{
    reveal_strlit("Still working on this ");
    reveal_strlit("task — cycle ");
    reveal_strlit("cycle ");
    reveal_strlit(", ~");
    reveal_strlit("~");
    reveal_strlit(" tool iterations completed.");
    reveal_strlit(" tool iterations completed. I will send the full reply when done.");
    let text = heartbeat_text(cycle, rounds);
    let first = "cycle "@ + decimal_text(cycle);
    let second = "~"@ + decimal_text(rounds) + " tool iterations completed."@;
    let i = 22 + 7int;
    let j = i + first.len() + 2;
    assert(text.subrange(i, i + first.len()) =~= first);
    assert(text.subrange(j, j + second.len()) =~= second);
    assert(occurs_at(text, first, i) && occurs_at(text, second, j));
}

proof fn lemma_given_up(rounds: nat)
    ensures
        exists|i: int| #[trigger]
            occurs_at(
                empty_calls_error(rounds),
                decimal_text(rounds) + " consecutive iterations"@,
                i,
            ),
{
    reveal_strlit(" consecutive iterations");
    reveal_strlit(
        " consecutive iterations — this usually indicates the provider does not support function calling correctly",
    );
    let text = empty_calls_error(rounds);
    let said = decimal_text(rounds) + " consecutive iterations"@;
    let i = "model generated tool calls with empty arguments for "@.len() as int;
    assert(text.subrange(i, i + said.len()) =~= said);
    assert(occurs_at(text, said, i));
}

proof fn lemma_no_reply(rounds: nat)
    ensures
        exists|i: int| #[trigger]
            occurs_at(
                no_reply_text(rounds),
                "(total_iterations="@ + decimal_text(rounds) + ")"@,
                i,
            ),
{
    reveal_strlit("AI produced no text and no tool call in final iteration (total_iterations=");
    reveal_strlit("(total_iterations=");
    reveal_strlit(") — user will see no reply");
    reveal_strlit(")");
    let text = no_reply_text(rounds);
    let said = "(total_iterations="@ + decimal_text(rounds) + ")"@;
    let i = 56int;
    assert(text.subrange(i, i + said.len()) =~= said);
    assert(occurs_at(text, said, i));
}

} // verus!
