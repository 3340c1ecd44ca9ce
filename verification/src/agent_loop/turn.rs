//! A turn, step by step: what has happened leads to what is done next. The
//! model, the tools and the user are reached by whoever performs the steps.
use crate::agent_loop::context::messages_view;
use crate::agent_loop::embedded_ask::{
    found_tag, law_no_malformed_tag_is_left, without_malformed, Asked,
};
use crate::agent_loop::response::{
    tool_calls_view, CollectedResponse, ResponseView, ToolCall, ToolCallView,
};
use crate::agent_loop::run::{
    ask_arguments, ask_input, call_answered, calls_tool, cancelled, cancelled_tools, closed,
    compacted, cycle_over, finished, heartbeat_text, images_shown, images_view,
    law_tags_are_not_delivered, next_cycle, no_reply_message, no_reply_text, progress_text,
    round_over, spent, started, step_for, taken_in, tokens_fit, tool_answered, AnswerStep,
    AnswerStepView, LoopState, LoopView, NextStep, TurnEnd,
};
use crate::json::{items_view, Json, JsonView};
use crate::numbers::decimal_text;
use crate::provider::select::{AnyProvider, ApiKind};
use crate::text::trim;
use crate::types::{blocks_view, ContentBlock, ImageSource, ImageView, Message};
use vstd::prelude::*;
use vstd::string::*;

verus! {

/// How a turn has ended.
#[derive(Debug)]
pub enum Ending {
    /// With an answer.
    Finished {
        /// The answer.
        text: String,
        /// Whether what was to be delivered of it has been.
        delivered: bool,
    },
    /// With a reply by the model's tool.
    Closed,
    /// It was cancelled.
    Cancelled,
    /// It failed, with an error of this text.
    Failed(String),
}

/// What an [`Ending`] holds.
#[verifier::ext_equal]
pub enum EndingView {
    /// With an answer.
    Finished {
        /// The answer.
        text: Seq<char>,
        /// Whether what was to be delivered of it has been.
        delivered: bool,
    },
    /// With a reply by the model's tool.
    Closed,
    /// It was cancelled.
    Cancelled,
    /// It failed.
    Failed(Seq<char>),
}

impl View for Ending {
    type V = EndingView;

    open spec fn view(&self) -> EndingView {
        match *self {
            Ending::Finished { text, delivered } => EndingView::Finished { text: text@, delivered },
            Ending::Closed => EndingView::Closed,
            Ending::Cancelled => EndingView::Cancelled,
            Ending::Failed(error) => EndingView::Failed(error@),
        }
    }
}

/// What a turn waits for.
#[derive(Debug)]
pub enum Phase {
    /// To be begun.
    Ready,
    /// That the user has been told that the turn goes on.
    Beating,
    /// The model's answer.
    Calling,
    /// That the user has been told what comes before a question.
    Telling {
        /// What the tool that asks is called with.
        input: Json,
    },
    /// The user's answer to a question in the model's text.
    Asking,
    /// That the user has been told what comes before the tools.
    Narrating {
        /// The tool calls.
        calls: Vec<ToolCall>,
        /// Whether one of the tools looks at the conversation so far.
        browses: bool,
    },
    /// The answer of a tool.
    Running {
        /// The tool calls.
        calls: Vec<ToolCall>,
        /// How many of them have been answered.
        done: usize,
        /// Whether one of the tools looks at the conversation so far.
        browses: bool,
    },
    /// The images that tools have loaded.
    Showing,
    /// That the reply has been delivered.
    Replying {
        /// The answer.
        text: String,
    },
    /// Nothing more.
    Over(Ending),
}

/// What a [`Phase`] holds.
#[verifier::ext_equal]
pub enum PhaseView {
    /// To be begun.
    Ready,
    /// That the user has been told that the turn goes on.
    Beating,
    /// The model's answer.
    Calling,
    /// That the user has been told what comes before a question.
    Telling {
        /// What the tool that asks is called with.
        input: JsonView,
    },
    /// The user's answer to a question in the model's text.
    Asking,
    /// That the user has been told what comes before the tools.
    Narrating {
        /// The tool calls.
        calls: Seq<ToolCallView>,
        /// Whether one of the tools looks at the conversation so far.
        browses: bool,
    },
    /// The answer of a tool.
    Running {
        /// The tool calls.
        calls: Seq<ToolCallView>,
        /// How many of them have been answered.
        done: nat,
        /// Whether one of the tools looks at the conversation so far.
        browses: bool,
    },
    /// The images that tools have loaded.
    Showing,
    /// That the reply has been delivered.
    Replying {
        /// The answer.
        text: Seq<char>,
    },
    /// Nothing more.
    Over(EndingView),
}

impl View for Phase {
    type V = PhaseView;

    open spec fn view(&self) -> PhaseView {
        match *self {
            Phase::Ready => PhaseView::Ready,
            Phase::Beating => PhaseView::Beating,
            Phase::Calling => PhaseView::Calling,
            Phase::Telling { input } => PhaseView::Telling { input: input@ },
            Phase::Asking => PhaseView::Asking,
            Phase::Narrating { calls, browses } => PhaseView::Narrating {
                calls: tool_calls_view(calls@),
                browses,
            },
            Phase::Running { calls, done, browses } => PhaseView::Running {
                calls: tool_calls_view(calls@),
                done: done as nat,
                browses,
            },
            Phase::Showing => PhaseView::Showing,
            Phase::Replying { text } => PhaseView::Replying { text: text@ },
            Phase::Over(ending) => PhaseView::Over(ending@),
        }
    }
}

/// What has happened.
#[derive(Debug)]
pub enum Happening {
    /// The turn begins.
    Begun,
    /// The model has answered.
    Answered(CollectedResponse),
    /// The model could not be called, with an error of this text.
    CallFailed(String),
    /// A text has been delivered, or could not be.
    Delivered(bool),
    /// A tool has answered.
    Output {
        /// The answer.
        content: String,
        /// Whether the tool failed.
        is_error: bool,
    },
    /// A tool was cancelled.
    Interrupted,
    /// The images that tools have loaded.
    Images(Vec<ImageSource>),
}

/// What a [`Happening`] holds.
#[verifier::ext_equal]
pub enum HappeningView {
    /// The turn begins.
    Begun,
    /// The model has answered.
    Answered(ResponseView),
    /// The model could not be called.
    CallFailed(Seq<char>),
    /// A text has been delivered, or could not be.
    Delivered(bool),
    /// A tool has answered.
    Output {
        /// The answer.
        content: Seq<char>,
        /// Whether the tool failed.
        is_error: bool,
    },
    /// A tool was cancelled.
    Interrupted,
    /// The images that tools have loaded.
    Images(Seq<ImageView>),
}

impl View for Happening {
    type V = HappeningView;

    open spec fn view(&self) -> HappeningView {
        match *self {
            Happening::Begun => HappeningView::Begun,
            Happening::Answered(response) => HappeningView::Answered(response@),
            Happening::CallFailed(error) => HappeningView::CallFailed(error@),
            Happening::Delivered(done) => HappeningView::Delivered(done),
            Happening::Output { content, is_error } => HappeningView::Output {
                content: content@,
                is_error,
            },
            Happening::Interrupted => HappeningView::Interrupted,
            Happening::Images(images) => HappeningView::Images(images_view(images@)),
        }
    }
}

/// What those who watch are told before the next thing is done.
#[derive(Debug)]
pub enum Notice {
    /// The conversation was cut down.
    Compacted(String),
    /// The model has said nothing.
    NoReply(String),
    /// A round is over.
    Progress(String),
}

/// What a [`Notice`] holds.
#[verifier::ext_equal]
pub enum NoticeView {
    /// The conversation was cut down.
    Compacted(Seq<char>),
    /// The model has said nothing.
    NoReply(Seq<char>),
    /// A round is over.
    Progress(Seq<char>),
}

impl View for Notice {
    type V = NoticeView;

    open spec fn view(&self) -> NoticeView {
        match *self {
            Notice::Compacted(text) => NoticeView::Compacted(text@),
            Notice::NoReply(text) => NoticeView::NoReply(text@),
            Notice::Progress(text) => NoticeView::Progress(text@),
        }
    }
}

/// What notices hold.
pub open spec fn notices_view(notices: Seq<Notice>) -> Seq<NoticeView> {
    notices.map_values(|notice: Notice| notice@)
}

/// What is done next.
#[derive(Debug)]
pub enum Action {
    /// The model is called.
    Call,
    /// The text is delivered to the user.
    Deliver(String),
    /// The user is asked, by the tool that asks, which is called with this.
    Ask(Json),
    /// The tool is run.
    RunTool {
        /// The call.
        call: ToolCall,
        /// Whether one of the tools looks at the conversation so far.
        browses: bool,
    },
    /// The images that tools have loaded are collected.
    CollectImages,
    /// Nothing: the turn is over.
    End,
}

/// What an [`Action`] holds.
#[verifier::ext_equal]
pub enum ActionView {
    /// The model is called.
    Call,
    /// The text is delivered to the user.
    Deliver(Seq<char>),
    /// The user is asked.
    Ask(JsonView),
    /// The tool is run.
    RunTool {
        /// The call.
        call: ToolCallView,
        /// Whether one of the tools looks at the conversation so far.
        browses: bool,
    },
    /// The images that tools have loaded are collected.
    CollectImages,
    /// Nothing: the turn is over.
    End,
}

impl View for Action {
    type V = ActionView;

    open spec fn view(&self) -> ActionView {
        match *self {
            Action::Call => ActionView::Call,
            Action::Deliver(text) => ActionView::Deliver(text@),
            Action::Ask(input) => ActionView::Ask(input@),
            Action::RunTool { call, browses } => ActionView::RunTool { call: call@, browses },
            Action::CollectImages => ActionView::CollectImages,
            Action::End => ActionView::End,
        }
    }
}

/// A turn between two steps.
#[derive(Debug)]
pub struct Turn {
    /// The loop.
    pub state: LoopState,
    /// What the turn waits for.
    pub phase: Phase,
}

/// What a [`Turn`] holds.
#[verifier::ext_equal]
pub struct RunningTurn {
    /// The loop.
    pub state: LoopView,
    /// What the turn waits for.
    pub phase: PhaseView,
}

impl View for Turn {
    type V = RunningTurn;

    open spec fn view(&self) -> RunningTurn {
        RunningTurn { state: self.state@, phase: self.phase@ }
    }
}

/// What a step of a turn comes to.
#[derive(Debug)]
pub struct TurnStep {
    /// The turn after the step.
    pub turn: Turn,
    /// What those who watch are told first.
    pub notices: Vec<Notice>,
    /// What is done next.
    pub action: Action,
}

/// What a [`TurnStep`] holds.
#[verifier::ext_equal]
pub struct StepView {
    /// The turn after the step.
    pub turn: RunningTurn,
    /// What those who watch are told first.
    pub notices: Seq<NoticeView>,
    /// What is done next.
    pub action: ActionView,
}

impl View for TurnStep {
    type V = StepView;

    open spec fn view(&self) -> StepView {
        StepView {
            turn: self.turn@,
            notices: notices_view(self.notices@),
            action: self.action@,
        }
    }
}

/// A step that does `action` and waits for what comes of it.
pub open spec fn goes_on(state: LoopView, phase: PhaseView, action: ActionView) -> StepView {
    StepView { turn: RunningTurn { state, phase }, notices: Seq::empty(), action }
}

/// A step that ends the turn.
pub open spec fn ends(state: LoopView, ending: EndingView) -> StepView {
    goes_on(state, PhaseView::Over(ending), ActionView::End)
}

/// The step with `notices` told first.
pub open spec fn told(notices: Seq<NoticeView>, step: StepView) -> StepView {
    StepView { notices: notices + step.notices, ..step }
}

/// The next round: the turn ends where the model has replied or the turn is
/// cancelled, the user is told at the end of a cycle that it goes on, and else
/// the model is called.
pub open spec fn next_round(state: LoopView, is_cancelled: bool) -> StepView {
    if state.reply.closing {
        ends(state, EndingView::Closed)
    } else if is_cancelled {
        ends(state, EndingView::Cancelled)
    } else if cycle_over(state) {
        if state.cycle_count >= usize::MAX {
            ends(state, EndingView::Failed("the turn has too many cycles"@))
        } else {
            goes_on(
                next_cycle(state),
                PhaseView::Beating,
                ActionView::Deliver(
                    heartbeat_text(state.cycle_count + 1, state.total_iterations),
                ),
            )
        }
    } else {
        goes_on(state, PhaseView::Calling, ActionView::Call)
    }
}

/// The next tool of a batch of which `done` calls have been answered.
pub open spec fn next_tool(
    state: LoopView,
    calls: Seq<ToolCallView>,
    done: nat,
    browses: bool,
    is_cancelled: bool,
) -> StepView {
    if done >= calls.len() {
        goes_on(state, PhaseView::Showing, ActionView::CollectImages)
    } else if is_cancelled {
        goes_on(cancelled_tools(state), PhaseView::Showing, ActionView::CollectImages)
    } else {
        goes_on(
            state,
            PhaseView::Running { calls, done, browses },
            ActionView::RunTool { call: calls[done as int], browses },
        )
    }
}

/// The tokens that an answer tells are counted, and a conversation that has
/// grown to `limit` tokens is cut down.
pub open spec fn counted(state: LoopView, limit: Option<u64>, response: ResponseView) -> LoopView {
    let counted = LoopView { tokens: spent(state.tokens, response), ..state };
    match limit {
        Some(limit) => if counted.tokens.context_input >= limit {
            compacted(counted)
        } else {
            counted
        },
        None => counted,
    }
}

/// What is told of a conversation that was cut down, if it was.
pub open spec fn compaction_notice(
    state: LoopView,
    limit: Option<u64>,
    response: ResponseView,
) -> Seq<NoticeView> {
    let tokens = spent(state.tokens, response).context_input;
    match limit {
        Some(limit) => if tokens >= limit {
            seq![
                NoticeView::Compacted(
                    "mid-loop compression: "@ + decimal_text(state.raw.len()) + "→"@
                        + decimal_text(counted(state, Some(limit), response).raw.len())
                        + " msgs, "@ + decimal_text(tokens) + "→0 tokens"@,
                ),
            ]
        } else {
            Seq::empty()
        },
        None => Seq::empty(),
    }
}

/// What the tool that asks is called with.
pub open spec fn asked_input(asked: Asked) -> JsonView {
    ask_arguments(
        asked.question,
        asked.options,
        match asked.timeout_secs {
            Some(secs) => Some(secs as u64),
            None => None,
        },
    )
}

/// What an answer leads to.
pub open spec fn answer_step(
    state: LoopView,
    kind: ApiKind,
    is_cancelled: bool,
    response: ResponseView,
) -> StepView {
    let after = taken_in(state, kind, response);
    match step_for(state, response) {
        AnswerStepView::Abort(error) => ends(after, EndingView::Failed(error)),
        AnswerStepView::Remind => next_round(after, is_cancelled),
        AnswerStepView::Finish { text, reply, no_reply } => told(
            if no_reply {
                seq![NoticeView::NoReply(no_reply_text(after.total_iterations))]
            } else {
                Seq::empty()
            },
            match reply {
                Some(reply) => goes_on(
                    after,
                    PhaseView::Replying { text },
                    ActionView::Deliver(reply),
                ),
                None => ends(after, EndingView::Finished { text, delivered: false }),
            },
        ),
        AnswerStepView::Ask { prose, deliver, asked } => if deliver {
            goes_on(
                after,
                PhaseView::Telling { input: asked_input(asked) },
                ActionView::Deliver(prose),
            )
        } else {
            goes_on(after, PhaseView::Asking, ActionView::Ask(asked_input(asked)))
        },
        AnswerStepView::RunTools { narration, browses, calls } => match narration {
            Some(text) => goes_on(
                after,
                PhaseView::Narrating { calls, browses },
                ActionView::Deliver(text),
            ),
            None => next_tool(after, calls, 0, browses, is_cancelled),
        },
    }
}

/// What an answer leads to, once its tokens are counted.
pub open spec fn answer_comes(
    state: LoopView,
    kind: ApiKind,
    limit: Option<u64>,
    is_cancelled: bool,
    response: ResponseView,
) -> StepView {
    if !tokens_fit(spent(state.tokens, response)) {
        ends(state, EndingView::Failed("the turn has used too many tokens"@))
    } else if state.empty_rounds >= u32::MAX {
        ends(state, EndingView::Failed("the turn has too many empty rounds"@))
    } else {
        told(
            compaction_notice(state, limit, response),
            answer_step(counted(state, limit, response), kind, is_cancelled, response),
        )
    }
}

/// The end of a round, with the images that its tools have loaded.
pub open spec fn round_ends(
    state: LoopView,
    kind: ApiKind,
    is_cancelled: bool,
    images: Seq<ImageView>,
) -> StepView {
    let shown = images_shown(state, kind, images);
    if shown.iter_in_cycle >= usize::MAX || shown.cycle_count >= usize::MAX
        || shown.total_iterations >= usize::MAX {
        ends(shown, EndingView::Failed("the turn has too many rounds"@))
    } else {
        told(
            seq![NoticeView::Progress(progress_text(shown))],
            next_round(round_over(shown), is_cancelled),
        )
    }
}

/// What a turn does about what has happened; `limit` is the size at which its
/// context is full, and `is_cancelled` tells whether it has been cancelled. What
/// the turn does not wait for is an error.
pub open spec fn turn_step(
    turn: RunningTurn,
    kind: ApiKind,
    limit: Option<u64>,
    is_cancelled: bool,
    happening: HappeningView,
) -> StepView {
    let state = turn.state;
    match (turn.phase, happening) {
        (PhaseView::Over(ending), _) => ends(state, ending),
        (PhaseView::Ready, HappeningView::Begun) => next_round(state, is_cancelled),
        (PhaseView::Beating, HappeningView::Delivered(_)) => next_round(state, is_cancelled),
        (PhaseView::Calling, HappeningView::Answered(response)) => answer_comes(
            state,
            kind,
            limit,
            is_cancelled,
            response,
        ),
        (PhaseView::Calling, HappeningView::CallFailed(error)) => if is_cancelled {
            ends(state, EndingView::Cancelled)
        } else {
            ends(state, EndingView::Failed(error))
        },
        (PhaseView::Telling { input }, HappeningView::Delivered(_)) => goes_on(
            state,
            PhaseView::Asking,
            ActionView::Ask(input),
        ),
        (PhaseView::Asking, HappeningView::Output { content, is_error }) => next_round(
            tool_answered(state, kind, "embedded-ask-user"@, content, is_error),
            is_cancelled,
        ),
        (PhaseView::Narrating { calls, browses }, HappeningView::Delivered(_)) => next_tool(
            state,
            calls,
            0,
            browses,
            is_cancelled,
        ),
        (
            PhaseView::Running { calls, done, browses },
            HappeningView::Output { content, is_error },
        ) => if done < calls.len() {
            next_tool(
                call_answered(state, kind, calls[done as int], content, is_error),
                calls,
                done + 1,
                browses,
                is_cancelled,
            )
        } else {
            ends(state, EndingView::Failed(UNEXPECTED@))
        },
        (PhaseView::Running { calls, done, browses }, HappeningView::Interrupted) => goes_on(
            cancelled_tools(state),
            PhaseView::Showing,
            ActionView::CollectImages,
        ),
        (PhaseView::Showing, HappeningView::Images(images)) => round_ends(
            state,
            kind,
            is_cancelled,
            images,
        ),
        (PhaseView::Replying { text }, HappeningView::Delivered(delivered)) => ends(
            state,
            EndingView::Finished { text, delivered },
        ),
        _ => ends(state, EndingView::Failed(UNEXPECTED@)),
    }
}

/// The error of a turn that is told of what it does not wait for.
pub const UNEXPECTED: &'static str = "the turn does not wait for this";

/// A step that does `action` and waits for what comes of it.
fn go_on(state: LoopState, phase: Phase, action: Action) -> (r: TurnStep)
    ensures
        r@ == goes_on(state@, phase@, action@),
{
    let notices: Vec<Notice> = Vec::new();
    assert(notices_view(notices@) =~= Seq::empty());
    TurnStep { turn: Turn { state, phase }, notices, action }
}

/// A step that ends the turn.
fn end(state: LoopState, ending: Ending) -> (r: TurnStep)
    ensures
        r@ == ends(state@, ending@),
{
    go_on(state, Phase::Over(ending), Action::End)
}

/// A step that ends the turn with an error.
fn fail(state: LoopState, error: &str) -> (r: TurnStep)
    ensures
        r@ == ends(state@, EndingView::Failed(error@)),
{
    end(state, Ending::Failed(error.to_owned()))
}

/// The step with a notice told first.
fn tell(notice: Notice, step: TurnStep) -> (r: TurnStep)
    ensures
        r@ == told(seq![notice@], step@),
{
    let ghost before = notices_view(step.notices@);
    let mut step = step;
    step.notices.insert(0, notice);
    assert(notices_view(step.notices@) =~= seq![notice@] + before);
    step
}

/// The next round.
fn start_round(state: LoopState, is_cancelled: bool) -> (r: TurnStep)
    ensures
        r@ == next_round(state@, is_cancelled),
{
    let mut state = state;
    if !state.reply.closing && !is_cancelled && state.iter_in_cycle >= state.max_iterations
        && state.cycle_count == usize::MAX {
        return fail(state, "the turn has too many cycles");
    }
    if state.cycle_count == usize::MAX {
        if state.reply.closing {
            return end(state, Ending::Closed);
        }
        if is_cancelled {
            return end(state, Ending::Cancelled);
        }
        return go_on(state, Phase::Calling, Action::Call);
    }
    match state.next_step(is_cancelled) {
        NextStep::Close => end(state, Ending::Closed),
        NextStep::Stop => end(state, Ending::Cancelled),
        NextStep::Heartbeat(text) => go_on(state, Phase::Beating, Action::Deliver(text)),
        NextStep::CallModel => go_on(state, Phase::Calling, Action::Call),
    }
}

/// The next tool of a batch of which `done` calls have been answered.
fn start_tool(
    state: LoopState,
    calls: Vec<ToolCall>,
    done: usize,
    browses: bool,
    is_cancelled: bool,
) -> (r: TurnStep)
    ensures
        r@ == next_tool(state@, tool_calls_view(calls@), done as nat, browses, is_cancelled),
{
    let mut state = state;
    assert(tool_calls_view(calls@).len() == calls@.len());
    if done >= calls.len() {
        return go_on(state, Phase::Showing, Action::CollectImages);
    }
    if is_cancelled {
        state.on_cancelled_tools();
        return go_on(state, Phase::Showing, Action::CollectImages);
    }
    let call = calls[done].clone();
    assert(call@ == tool_calls_view(calls@)[done as int]);
    go_on(state, Phase::Running { calls, done, browses }, Action::RunTool { call, browses })
}

impl LoopState {
    /// Whether the tokens that an answer tells can be counted.
    fn can_count(&self, response: &CollectedResponse) -> (r: bool)
        ensures
            r == tokens_fit(spent(self@.tokens, response@)),
    {
        self.total_input_tokens <= u64::MAX - response.input_tokens && self.total_output_tokens
            <= u64::MAX - response.output_tokens && self.total_cache_hit_tokens <= u64::MAX
            - response.cache_hit_tokens && self.total_cache_creation_tokens <= u64::MAX
            - response.cache_creation_tokens && self.total_reasoning_tokens <= u64::MAX
            - response.reasoning_tokens
    }
}

/// What an answer leads to.
fn take_answer(
    state: LoopState,
    provider: &AnyProvider,
    is_cancelled: bool,
    response: CollectedResponse,
) -> (r: TurnStep)
    requires
        state.empty_rounds < u32::MAX,
    ensures
        r@ == answer_step(state@, provider@.kind, is_cancelled, response@),
{
    let mut state = state;
    match state.on_answer(provider, response) {
        AnswerStep::Abort(error) => end(state, Ending::Failed(error)),
        AnswerStep::Remind => start_round(state, is_cancelled),
        AnswerStep::Finish { text, reply, no_reply } => {
            let iterations: usize = state.total_iterations;
            let step = match reply {
                Some(reply) => go_on(state, Phase::Replying { text }, Action::Deliver(reply)),
                None => end(state, Ending::Finished { text, delivered: false }),
            };
            if no_reply {
                tell(Notice::NoReply(no_reply_message(iterations)), step)
            } else {
                assert(told(Seq::empty(), step@) =~= step@);
                step
            }
        },
        AnswerStep::Ask { prose, deliver, question, options, timeout_secs } => {
            let input = ask_input(question.as_str(), options.as_slice(), timeout_secs);
            if deliver {
                go_on(state, Phase::Telling { input }, Action::Deliver(prose))
            } else {
                go_on(state, Phase::Asking, Action::Ask(input))
            }
        },
        AnswerStep::RunTools { narration, browses, calls } => {
            match narration {
                Some(text) => go_on(
                    state,
                    Phase::Narrating { calls, browses },
                    Action::Deliver(text),
                ),
                None => start_tool(state, calls, 0, browses, is_cancelled),
            }
        },
    }
}

/// What an answer leads to, once its tokens are counted.
fn count_and_take(
    state: LoopState,
    provider: &AnyProvider,
    limit: Option<u64>,
    is_cancelled: bool,
    response: CollectedResponse,
) -> (r: TurnStep)
    ensures
        r@ == answer_comes(state@, provider@.kind, limit, is_cancelled, response@),
{
    let mut state = state;
    if !state.can_count(&response) {
        return fail(state, "the turn has used too many tokens");
    }
    if state.empty_rounds == u32::MAX {
        return fail(state, "the turn has too many empty rounds");
    }
    state.count_tokens(&response);
    if state.needs_compaction(limit) {
        let text = state.compact();
        tell(Notice::Compacted(text), take_answer(state, provider, is_cancelled, response))
    } else {
        let step = take_answer(state, provider, is_cancelled, response);
        assert(told(Seq::empty(), step@) =~= step@);
        step
    }
}

/// The end of a round.
fn end_of_round(
    state: LoopState,
    provider: &AnyProvider,
    is_cancelled: bool,
    images: Vec<ImageSource>,
) -> (r: TurnStep)
    ensures
        r@ == round_ends(state@, provider@.kind, is_cancelled, images_view(images@)),
{
    let mut state = state;
    state.on_images(provider, images);
    if state.iter_in_cycle == usize::MAX || state.cycle_count == usize::MAX
        || state.total_iterations == usize::MAX {
        return fail(state, "the turn has too many rounds");
    }
    let progress = state.end_round();
    tell(Notice::Progress(progress), start_round(state, is_cancelled))
}

impl Turn {
    /// A turn before its first step: `user_blocks` is what the user says now,
    /// and `reply_tool` tells whether the model has a tool to reply by.
    pub fn start(
        provider: &AnyProvider,
        prior_history: Vec<Message>,
        prior_raw_context: Vec<Json>,
        user_blocks: Vec<ContentBlock>,
        max_iterations: Option<usize>,
        reply_tool: bool,
    ) -> (r: Turn)
        ensures
            r@ == (RunningTurn {
                state: started(
                    provider@.kind,
                    messages_view(prior_history@),
                    items_view(prior_raw_context@),
                    blocks_view(user_blocks@),
                    max_iterations,
                    reply_tool,
                ),
                phase: PhaseView::Ready,
            }),
    {
        Turn {
            state: LoopState::start(
                provider,
                prior_history,
                prior_raw_context,
                user_blocks,
                max_iterations,
                reply_tool,
            ),
            phase: Phase::Ready,
        }
    }

    /// What the turn does about what has happened; `limit` is the size at which
    /// its context is full, and `is_cancelled` tells whether it has been
    /// cancelled.
    pub fn step(
        self,
        provider: &AnyProvider,
        limit: Option<u64>,
        is_cancelled: bool,
        happening: Happening,
    ) -> (r: TurnStep)
        ensures
            r@ == turn_step(self@, provider@.kind, limit, is_cancelled, happening@),
    {
        let mut state = self.state;
        match (self.phase, happening) {
            (Phase::Over(ending), _) => end(state, ending),
            (Phase::Ready, Happening::Begun) => start_round(state, is_cancelled),
            (Phase::Beating, Happening::Delivered(_)) => start_round(state, is_cancelled),
            (Phase::Calling, Happening::Answered(response)) => count_and_take(
                state,
                provider,
                limit,
                is_cancelled,
                response,
            ),
            (Phase::Calling, Happening::CallFailed(error)) => if is_cancelled {
                end(state, Ending::Cancelled)
            } else {
                end(state, Ending::Failed(error))
            },
            (Phase::Telling { input }, Happening::Delivered(_)) => go_on(
                state,
                Phase::Asking,
                Action::Ask(input),
            ),
            (Phase::Asking, Happening::Output { content, is_error }) => {
                state.on_embedded_answer(provider, content.as_str(), is_error);
                start_round(state, is_cancelled)
            },
            (Phase::Narrating { calls, browses }, Happening::Delivered(_)) => start_tool(
                state,
                calls,
                0,
                browses,
                is_cancelled,
            ),
            (Phase::Running { calls, done, browses }, Happening::Output { content, is_error }) => {
                assert(tool_calls_view(calls@).len() == calls@.len());
                if done >= calls.len() {
                    return fail(state, UNEXPECTED);
                }
                assert(calls@[done as int]@ == tool_calls_view(calls@)[done as int]);
                state.on_tool_output(provider, &calls[done], content.as_str(), is_error);
                start_tool(state, calls, done + 1, browses, is_cancelled)
            },
            (Phase::Running { .. }, Happening::Interrupted) => {
                state.on_cancelled_tools();
                go_on(state, Phase::Showing, Action::CollectImages)
            },
            (Phase::Showing, Happening::Images(images)) => end_of_round(
                state,
                provider,
                is_cancelled,
                images,
            ),
            (Phase::Replying { text }, Happening::Delivered(delivered)) => end(
                state,
                Ending::Finished { text, delivered },
            ),
            _ => fail(state, UNEXPECTED),
        }
    }

    /// What the turn has come to, once it is over: how it has ended, or the
    /// error with which it failed.
    pub fn into_end(self) -> (r: Result<TurnEnd, String>)
        requires
            self@.phase is Over,
        ensures
            match self@.phase {
                PhaseView::Over(EndingView::Finished { text, delivered }) => r matches Ok(end)
                    && end.success && end.result.replied() == finished(
                    self@.state.reply,
                    text,
                    delivered,
                ) && end.result.keeps(self@.state),
                PhaseView::Over(EndingView::Closed) => r matches Ok(end) && end.success
                    && end.result.replied() == closed(self@.state.reply) && end.result.keeps(
                    self@.state,
                ),
                PhaseView::Over(EndingView::Cancelled) => r matches Ok(end) && !end.success
                    && end.result.text@.len() == 0 && !end.result.reply_delivered
                    && end.result.replied() == cancelled(self@.state.reply) && end.result.keeps(
                    self@.state,
                ),
                PhaseView::Over(EndingView::Failed(error)) => r matches Err(text) && text@
                    == error,
                _ => false,
            },
    {
        match self.phase {
            Phase::Over(Ending::Finished { text, delivered }) => Ok(
                self.state.finish(text, delivered),
            ),
            Phase::Over(Ending::Closed) => Ok(self.state.close()),
            Phase::Over(Ending::Failed(error)) => Err(error),
            _ => Ok(self.state.cancel()),
        }
    }
}

/// Before a question is asked, what the model says besides is delivered. A
/// question in its text is asked right after that, or where there is nothing to
/// say; and no tool of a batch that asks the user is run before that, unless
/// the model says nothing.
pub proof fn law_prose_comes_before_the_question(
    turn: RunningTurn,
    kind: ApiKind,
    limit: Option<u64>,
    is_cancelled: bool,
    happening: HappeningView,
)
    ensures
        ({
            let step = turn_step(turn, kind, limit, is_cancelled, happening);
            &&& step.action is Ask ==> (turn.phase is Telling && happening is Delivered) || (
            happening matches HappeningView::Answered(response) && step_for(
                counted(turn.state, limit, response),
                response,
            ) matches AnswerStepView::Ask { prose, .. } && trim(prose).len() == 0)
            &&& step.turn.phase is Telling ==> step.action is Deliver
            &&& step.turn.phase is Narrating ==> step.action is Deliver
            &&& happening matches HappeningView::Answered(response) ==> (calls_tool(
                response.calls,
                "ask_user"@,
            ) && step.action is RunTool ==> trim(response.text).len() == 0)
        }),
{
}

/// A turn ends exactly when it has nothing more to do, and stays as it has
/// ended, whatever happens then.
pub proof fn law_over_is_over(
    turn: RunningTurn,
    kind: ApiKind,
    limit: Option<u64>,
    is_cancelled: bool,
    happening: HappeningView,
)
    ensures
        ({
            let step = turn_step(turn, kind, limit, is_cancelled, happening);
            &&& step.action is End <==> step.turn.phase is Over
            &&& turn.phase is Over ==> step.turn == turn && step.notices.len() == 0
        }),
{
}

/// A turn that is cancelled while the model is called, or before it is called
/// again, ends so without an error, unless the model had ended it with its reply.
pub proof fn law_cancelled_turn_ends(
    turn: RunningTurn,
    kind: ApiKind,
    limit: Option<u64>,
    error: Seq<char>,
    state: LoopView,
)
    ensures
        turn.phase is Calling ==> turn_step(
            turn,
            kind,
            limit,
            true,
            HappeningView::CallFailed(error),
        ).turn.phase == PhaseView::Over(EndingView::Cancelled),
        next_round(state, true).turn.phase == PhaseView::Over(
            if state.reply.closing {
                EndingView::Closed
            } else {
                EndingView::Cancelled
            },
        ),
        next_round(state, true).turn.state == state,
{
}

/// No tool of a batch is run once the turn is cancelled, and those of a batch
/// are run one after the other, each once.
pub proof fn law_tools_run_in_order(
    turn: RunningTurn,
    kind: ApiKind,
    limit: Option<u64>,
    is_cancelled: bool,
    happening: HappeningView,
)
    ensures
        ({
            let step = turn_step(turn, kind, limit, is_cancelled, happening);
            step.action matches ActionView::RunTool { call, .. } ==> {
                &&& !is_cancelled
                &&& step.turn.phase matches PhaseView::Running { calls, done, .. }
                &&& done < calls.len()
                &&& call == calls[done as int]
                &&& turn.phase matches PhaseView::Running { calls: same_calls, done: before, .. }
                    ==> done == before + 1 && calls == same_calls
            }
        }),
{
}

proof fn lemma_heartbeat_holds_no_tag(cycle: nat, iterations: nat)
    ensures
        found_tag(heartbeat_text(cycle, iterations)) is None,
{
    let text = heartbeat_text(cycle, iterations);
    reveal_strlit("Still working on this ");
    reveal_strlit("task — cycle ");
    reveal_strlit(", ~");
    reveal_strlit(" tool iterations completed. I will send the full reply when done.");
    reveal_strlit("<ask_user");
    crate::numbers::law_decimal_reads_back(cycle);
    crate::numbers::law_decimal_reads_back(iterations);
    let a = decimal_text(cycle);
    let b = decimal_text(iterations);
    assert forall|i: int| 0 <= i < a.len() implies a[i] != '<' by {
        assert(crate::numbers::is_digit(a[i]));
    }
    assert forall|i: int| 0 <= i < b.len() implies b[i] != '<' by {
        assert(crate::numbers::is_digit(b[i]));
    }
    let head = "Still working on this "@ + "task — cycle "@;
    assert forall|i: int| 0 <= i < head.len() implies head[i] != '<' by {}
    assert forall|i: int| 0 <= i < text.len() implies text[i] != '<' by {
        let first = head + a;
        let second = first + ", ~"@;
        let third = second + b;
        if i < first.len() {
            assert(text[i] == first[i]);
        } else if i < second.len() {
            assert(text[i] == second[i]);
        } else if i < third.len() {
            assert(text[i] == third[i]);
        }
    }
    assert forall|j: int| 0 <= j implies !#[trigger] crate::text::occurs_at(
        text,
        "<ask_user"@,
        j,
    ) by {
        if crate::text::occurs_at(text, "<ask_user"@, j) {
            assert(text.subrange(j, j + 9)[0] == '<');
        }
    }
    crate::text::lemma_find_none(text, "<ask_user"@, 0);
}

/// Nothing that a turn delivers holds a tag that asks the user: neither what is
/// told before a question or before tools, nor the reply, nor that the turn
/// goes on.
pub proof fn law_no_tag_is_delivered(
    turn: RunningTurn,
    kind: ApiKind,
    limit: Option<u64>,
    is_cancelled: bool,
    happening: HappeningView,
)
    ensures
        turn_step(turn, kind, limit, is_cancelled, happening).action matches ActionView::Deliver(
            text,
        ) ==> found_tag(text) is None,
{
    assert forall|cycle: nat, iterations: nat| found_tag(
        #[trigger] heartbeat_text(cycle, iterations),
    ) is None by {
        lemma_heartbeat_holds_no_tag(cycle, iterations);
    }
    if let HappeningView::Answered(response) = happening {
        law_tags_are_not_delivered(counted(turn.state, limit, response), response);
    }
}

/// A tag that cannot be read asks nothing: what is asked about an answer in text
/// is what its first tag asks, once those are gone that cannot be read.
pub proof fn law_only_readable_tags_ask(
    turn: RunningTurn,
    kind: ApiKind,
    limit: Option<u64>,
    is_cancelled: bool,
    response: ResponseView,
)
    ensures
        ({
            let step = turn_step(
                turn,
                kind,
                limit,
                is_cancelled,
                HappeningView::Answered(response),
            );
            let tag = found_tag(without_malformed(response.text));
            &&& step.action matches ActionView::Ask(input) ==> response.calls.len() == 0 && (tag
                matches Some(tag) && tag.asked is Some && input == asked_input(tag.asked->0))
            &&& step.turn.phase matches PhaseView::Telling { input } ==> response.calls.len() == 0
                && (tag matches Some(tag) && tag.asked is Some && input == asked_input(
                tag.asked->0,
            ))
        }),
{
    law_no_malformed_tag_is_left(response.text);
}

} // verus!
