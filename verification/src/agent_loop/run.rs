//! The decisions of the loop: when the model is called, what its answer leads
//! to, and what is kept of it all.
use crate::agent_loop::context::{
    compact_history_heuristic, flat, messages_view, pair_reading, raw_user,
};
use crate::agent_loop::embedded_ask::{
    find_embedded_ask, found_tag, strip_malformed, strip_tags, timeout_view, without_malformed,
    without_tags, Asked, EmbeddedAsk,
};
use crate::agent_loop::response::{
    all_empty, all_tool_calls_empty, answer_message, arguments_json, parse_arguments, raw_answer,
    tool_calls_view, CollectedResponse, ResponseView, ToolCall, ToolCallView,
};
use crate::json::{items_view, number_view, object2, text_as_json, with_field, Json, JsonView};
use crate::numbers::{decimal_string, decimal_text};
use crate::provider::anthropic::{role_message, tool_result_json};
use crate::provider::messages::{
    blocks_of, calls_of, field_is, is_no, is_yes, says, says_no, says_yes,
};
use crate::provider::openai_compat::{labeled, tool_json};
use crate::provider::select::{AnyProvider, ApiKind};
use crate::session::{cut_down, extract_user_assistant_pairs, last_of};
use crate::text::{contains, is_white, mentions, option_text, same, texts, trim, trimmed};
use crate::types::{
    blocks_view, tool_answer, tools_view, BlockView, ContentBlock, ImageSource, ImageView, Message,
    MessageView, Role, ToolDefinition, ToolView,
};
use vstd::prelude::*;
use vstd::string::*;

verus! {

/// How many rounds make a cycle, where nothing else is set.
pub const DEFAULT_MAX_ITERATIONS: usize = 100;

/// After how many rounds in a row in which no tool call has arguments the loop
/// is given up.
pub const MAX_EMPTY_TOOL_CALL_ITERATIONS: u32 = 3;

/// How many pairs are kept of a conversation that has grown too long.
pub const COMPACT_PAIRS: usize = 3;

/// The tool by which the model replies to the user.
pub const REPLY_TOOL: &'static str = "jyc_reply_message";

/// What follows a reply that the loop has delivered in the model's stead, by
/// the tool that the model should have called.
pub const AUTO_DELIVERED: &'static str = "\n\n— auto-delivered";

/// What has become of the reply that the model sends by its tool.
#[derive(Debug)]
pub struct ReplyState {
    /// Whether the model has a tool to reply by.
    pub tool: bool,
    /// Why the last reply could not be sent, as long as the model has not been
    /// reminded of it.
    pub failed: Option<String>,
    /// Whether a reply has been sent, or the model has decided to send none.
    pub sent: bool,
    /// The reply that was sent last.
    pub text: Option<String>,
    /// Whether the turn ends with that reply.
    pub closing: bool,
    /// Whether the model may do nothing but reply in the next round.
    pub only: bool,
}

/// What a [`ReplyState`] holds.
#[verifier::ext_equal]
pub struct ReplyView {
    /// Whether the model has a tool to reply by.
    pub tool: bool,
    /// Why the last reply could not be sent.
    pub failed: Option<Seq<char>>,
    /// Whether a reply has been sent, or the model has decided to send none.
    pub sent: bool,
    /// The reply that was sent last.
    pub text: Option<Seq<char>>,
    /// Whether the turn ends with that reply.
    pub closing: bool,
    /// Whether the model may do nothing but reply in the next round.
    pub only: bool,
}

impl View for ReplyState {
    type V = ReplyView;

    open spec fn view(&self) -> ReplyView {
        ReplyView {
            tool: self.tool,
            failed: option_text(self.failed),
            sent: self.sent,
            text: option_text(self.text),
            closing: self.closing,
            only: self.only,
        }
    }
}

/// Before any reply.
pub open spec fn no_reply_yet(tool: bool) -> ReplyView {
    ReplyView { tool, failed: None, sent: false, text: None, closing: false, only: false }
}

/// The loop between two steps.
#[derive(Debug)]
pub struct LoopState {
    /// The conversation.
    pub history: Vec<Message>,
    /// The conversation as the provider takes it.
    pub raw_context: Vec<Json>,
    /// The size of the context, as it was told last.
    pub context_input_tokens: u64,
    /// The prompt tokens of all calls.
    pub total_input_tokens: u64,
    /// The answer tokens of all calls.
    pub total_output_tokens: u64,
    /// The prompt tokens of all calls that came from a cache.
    pub total_cache_hit_tokens: u64,
    /// The prompt tokens of all calls that were written to a cache.
    pub total_cache_creation_tokens: u64,
    /// The answer tokens of all calls that were spent on reasoning.
    pub total_reasoning_tokens: u64,
    /// How many rounds make a cycle.
    pub max_iterations: usize,
    /// The rounds of this cycle.
    pub iter_in_cycle: usize,
    /// The cycles that are over.
    pub cycle_count: usize,
    /// The rounds of all cycles.
    pub total_iterations: usize,
    /// The latest rounds in a row in which no tool call had arguments.
    pub empty_rounds: u32,
    /// What has become of the reply.
    pub reply: ReplyState,
}

/// What a [`LoopState`] holds.
#[verifier::ext_equal]
pub struct LoopView {
    /// The conversation.
    pub history: Seq<MessageView>,
    /// The conversation as the provider takes it.
    pub raw: Seq<JsonView>,
    /// What has been spent.
    pub tokens: TokenView,
    /// How many rounds make a cycle.
    pub max_iterations: nat,
    /// The rounds of this cycle.
    pub iter_in_cycle: nat,
    /// The cycles that are over.
    pub cycle_count: nat,
    /// The rounds of all cycles.
    pub total_iterations: nat,
    /// The latest rounds in a row in which no tool call had arguments.
    pub empty_rounds: nat,
    /// What has become of the reply.
    pub reply: ReplyView,
}

/// The tokens that have been spent.
#[verifier::ext_equal]
pub struct TokenView {
    /// The size of the context, as it was told last.
    pub context_input: nat,
    /// The prompt tokens of all calls.
    pub input: nat,
    /// The answer tokens of all calls.
    pub output: nat,
    /// The prompt tokens of all calls that came from a cache.
    pub cache_hit: nat,
    /// The prompt tokens of all calls that were written to a cache.
    pub cache_creation: nat,
    /// The answer tokens of all calls that were spent on reasoning.
    pub reasoning: nat,
}

impl View for LoopState {
    type V = LoopView;

    open spec fn view(&self) -> LoopView {
        LoopView {
            history: messages_view(self.history@),
            raw: items_view(self.raw_context@),
            tokens: TokenView {
                context_input: self.context_input_tokens as nat,
                input: self.total_input_tokens as nat,
                output: self.total_output_tokens as nat,
                cache_hit: self.total_cache_hit_tokens as nat,
                cache_creation: self.total_cache_creation_tokens as nat,
                reasoning: self.total_reasoning_tokens as nat,
            },
            max_iterations: self.max_iterations as nat,
            iter_in_cycle: self.iter_in_cycle as nat,
            cycle_count: self.cycle_count as nat,
            total_iterations: self.total_iterations as nat,
            empty_rounds: self.empty_rounds as nat,
            reply: self.reply@,
        }
    }
}

/// The loop before its first step.
pub open spec fn started(
    kind: ApiKind,
    history: Seq<MessageView>,
    raw: Seq<JsonView>,
    blocks: Seq<BlockView>,
    max_iterations: Option<usize>,
    reply_tool: bool,
) -> LoopView {
    LoopView {
        history: history.push(MessageView { role: Role::User, content: blocks }),
        raw: raw.push(raw_user(kind, blocks)),
        tokens: TokenView {
            context_input: 0,
            input: 0,
            output: 0,
            cache_hit: 0,
            cache_creation: 0,
            reasoning: 0,
        },
        max_iterations: match max_iterations {
            Some(n) => n as nat,
            None => DEFAULT_MAX_ITERATIONS as nat,
        },
        iter_in_cycle: 0,
        cycle_count: 0,
        total_iterations: 0,
        empty_rounds: 0,
        reply: no_reply_yet(reply_tool),
    }
}

/// What the loop does next.
#[derive(Debug, PartialEq, Eq)]
pub enum NextStep {
    /// It ends: the model has replied, and means the turn to end with that.
    Close,
    /// It ends: it was cancelled.
    Stop,
    /// It tells the user that it still works, in this text, and goes on.
    Heartbeat(String),
    /// It calls the model.
    CallModel,
}

/// What the user is told at the end of a cycle.
pub open spec fn heartbeat_text(cycle: nat, iterations: nat) -> Seq<char> {
    "Still working on this "@ + "task — cycle "@ + decimal_text(cycle) + ", ~"@ + decimal_text(
        iterations,
    ) + " tool iterations completed. I will send the full reply when done."@
}

/// Whether a cycle is over.
pub open spec fn cycle_over(state: LoopView) -> bool {
    state.iter_in_cycle >= state.max_iterations
}

/// The loop in its next cycle.
pub open spec fn next_cycle(state: LoopView) -> LoopView {
    LoopView { iter_in_cycle: 0, cycle_count: state.cycle_count + 1, ..state }
}

/// What is spent once an answer has come in: the size of the context is told by
/// each answer that tells any.
pub open spec fn spent(tokens: TokenView, response: ResponseView) -> TokenView {
    TokenView {
        context_input: if response.input_tokens > 0 {
            response.input_tokens as nat
        } else {
            tokens.context_input
        },
        input: tokens.input + response.input_tokens as nat,
        output: tokens.output + response.output_tokens,
        cache_hit: tokens.cache_hit + response.cache_hit_tokens as nat,
        cache_creation: tokens.cache_creation + response.cache_creation_tokens as nat,
        reasoning: tokens.reasoning + response.reasoning_tokens,
    }
}

/// Whether the counts can be held.
pub open spec fn tokens_fit(tokens: TokenView) -> bool {
    &&& tokens.input <= u64::MAX
    &&& tokens.output <= u64::MAX
    &&& tokens.cache_hit <= u64::MAX
    &&& tokens.cache_creation <= u64::MAX
    &&& tokens.reasoning <= u64::MAX
}

/// The loop with its conversation cut down to its last pairs.
pub open spec fn compacted(state: LoopView) -> LoopView {
    LoopView {
        history: flat(last_of(pair_reading(state.history).pairs, COMPACT_PAIRS as nat)),
        raw: cut_down(state.raw, COMPACT_PAIRS as nat, None),
        tokens: TokenView { context_input: 0, ..state.tokens },
        ..state
    }
}

impl LoopState {
    /// The loop before its first step: `user_blocks` is what the user says now,
    /// and `reply_tool` tells whether the model has a tool to reply by.
    pub fn start(
        provider: &AnyProvider,
        prior_history: Vec<Message>,
        prior_raw_context: Vec<Json>,
        user_blocks: Vec<ContentBlock>,
        max_iterations: Option<usize>,
        reply_tool: bool,
    ) -> (r: LoopState)
        ensures
            r@ == started(
                provider@.kind,
                messages_view(prior_history@),
                items_view(prior_raw_context@),
                blocks_view(user_blocks@),
                max_iterations,
                reply_tool,
            ),
    {
        let ghost before = messages_view(prior_history@);
        let ghost raw_before = items_view(prior_raw_context@);
        let mut raw_context = prior_raw_context;
        let said = provider.format_user_message(user_blocks.as_slice());
        raw_context.push(said);
        let mut history = prior_history;
        let message = Message::user_with_blocks(user_blocks);
        history.push(message);
        assert(messages_view(history@) =~= before.push(message@));
        assert(items_view(raw_context@) =~= raw_before.push(said@));
        LoopState {
            history,
            raw_context,
            context_input_tokens: 0,
            total_input_tokens: 0,
            total_output_tokens: 0,
            total_cache_hit_tokens: 0,
            total_cache_creation_tokens: 0,
            total_reasoning_tokens: 0,
            max_iterations: match max_iterations {
                Some(n) => n,
                None => DEFAULT_MAX_ITERATIONS,
            },
            iter_in_cycle: 0,
            cycle_count: 0,
            total_iterations: 0,
            empty_rounds: 0,
            reply: ReplyState {
                tool: reply_tool,
                failed: None,
                sent: false,
                text: None,
                closing: false,
                only: false,
            },
        }
    }

    /// What the loop does next.
    pub fn next_step(&mut self, cancelled: bool) -> (r: NextStep)
        requires
            old(self).cycle_count < usize::MAX,
        ensures
            r is Close <==> old(self)@.reply.closing,
            match r {
                NextStep::Close => final(self)@ == old(self)@,
                NextStep::Stop => cancelled && final(self)@ == old(self)@,
                NextStep::Heartbeat(text) => {
                    &&& !cancelled
                    &&& cycle_over(old(self)@)
                    &&& final(self)@ == next_cycle(old(self)@)
                    &&& text@ == heartbeat_text(
                        (old(self).cycle_count + 1) as nat,
                        old(self).total_iterations as nat,
                    )
                },
                NextStep::CallModel => !cancelled && !cycle_over(old(self)@) && final(self)@ == old(
                    self,
                )@,
            },
    {
        if self.reply.closing {
            return NextStep::Close;
        }
        if cancelled {
            return NextStep::Stop;
        }
        if self.iter_in_cycle >= self.max_iterations {
            self.cycle_count = self.cycle_count + 1;
            self.iter_in_cycle = 0;
            return NextStep::Heartbeat(
                "Still working on this ".to_owned().concat("task — cycle ").concat(
                    decimal_string(self.cycle_count as u64).as_str(),
                ).concat(", ~").concat(decimal_string(self.total_iterations as u64).as_str()).concat(
                    " tool iterations completed. I will send the full reply when done.",
                ),
            );
        }
        NextStep::CallModel
    }

    /// Counts the tokens of an answer.
    pub fn count_tokens(&mut self, response: &CollectedResponse)
        requires
            tokens_fit(spent(old(self)@.tokens, response@)),
        ensures
            final(self)@ == (LoopView {
                tokens: spent(old(self)@.tokens, response@),
                ..old(self)@
            }),
    {
        if response.input_tokens > 0 {
            self.context_input_tokens = response.input_tokens;
        }
        self.total_input_tokens = self.total_input_tokens + response.input_tokens;
        self.total_output_tokens = self.total_output_tokens + response.output_tokens;
        self.total_cache_hit_tokens = self.total_cache_hit_tokens + response.cache_hit_tokens;
        self.total_cache_creation_tokens = self.total_cache_creation_tokens
            + response.cache_creation_tokens;
        self.total_reasoning_tokens = self.total_reasoning_tokens + response.reasoning_tokens;
    }

    /// Whether the context has grown to `limit` tokens.
    pub fn needs_compaction(&self, limit: Option<u64>) -> (r: bool)
        ensures
            r == match limit {
                Some(limit) => self@.tokens.context_input >= limit,
                None => false,
            },
    {
        match limit {
            Some(limit) => self.context_input_tokens >= limit,
            None => false,
        }
    }

    /// Cuts the conversation down to its last pairs. The result tells of it.
    pub fn compact(&mut self) -> (r: String)
        ensures
            final(self)@ == compacted(old(self)@),
            r@ == "mid-loop compression: "@ + decimal_text(old(self)@.raw.len()) + "→"@
                + decimal_text(final(self)@.raw.len()) + " msgs, "@ + decimal_text(
                old(self)@.tokens.context_input,
            ) + "→0 tokens"@,
    {
        let before: usize = self.raw_context.len();
        let tokens: u64 = self.context_input_tokens;
        self.raw_context =
        extract_user_assistant_pairs(self.raw_context.as_slice(), COMPACT_PAIRS, None);
        self.history = compact_history_heuristic(self.history.as_slice(), COMPACT_PAIRS);
        self.context_input_tokens = 0;
        assert(self@ =~= compacted(old(self)@));
        "mid-loop compression: ".to_owned().concat(decimal_string(before as u64).as_str()).concat(
            "→",
        ).concat(decimal_string(self.raw_context.len() as u64).as_str()).concat(" msgs, ").concat(
            decimal_string(tokens).as_str(),
        ).concat("→0 tokens")
    }
}

/// What an answer of the model leads to.
#[derive(Debug)]
pub enum AnswerStep {
    /// The turn is over.
    Finish {
        /// What is answered.
        text: String,
        /// What is delivered, if anything.
        reply: Option<String>,
        /// Whether the model has said nothing at all.
        no_reply: bool,
    },
    /// The model has been reminded that its reply was not delivered, and goes
    /// on with that.
    Remind,
    /// The user is asked, and the model goes on with what they answer.
    Ask {
        /// What is told before.
        prose: String,
        /// Whether there is anything to tell before.
        deliver: bool,
        /// The question.
        question: String,
        /// The answers to choose from.
        options: Vec<String>,
        /// How long to wait for the answer, in seconds.
        timeout_secs: Option<u64>,
    },
    /// The tools are run, and the model goes on with what they answer.
    RunTools {
        /// What the user is told before, since one of the tools asks them.
        narration: Option<String>,
        /// Whether one of the tools looks at the conversation so far.
        browses: bool,
        /// The tool calls.
        calls: Vec<ToolCall>,
    },
    /// The loop is given up, with an error of this text.
    Abort(String),
}

/// What an [`AnswerStep`] holds.
#[verifier::ext_equal]
pub enum AnswerStepView {
    /// The turn is over.
    Finish {
        /// What is answered.
        text: Seq<char>,
        /// What is delivered, if anything.
        reply: Option<Seq<char>>,
        /// Whether the model has said nothing at all.
        no_reply: bool,
    },
    /// The model has been reminded.
    Remind,
    /// The user is asked.
    Ask {
        /// What is told before.
        prose: Seq<char>,
        /// Whether there is anything to tell before.
        deliver: bool,
        /// What is asked.
        asked: Asked,
    },
    /// The tools are run.
    RunTools {
        /// What the user is told before.
        narration: Option<Seq<char>>,
        /// Whether one of the tools looks at the conversation so far.
        browses: bool,
        /// The tool calls.
        calls: Seq<ToolCallView>,
    },
    /// The loop is given up.
    Abort(Seq<char>),
}

impl View for AnswerStep {
    type V = AnswerStepView;

    open spec fn view(&self) -> AnswerStepView {
        match *self {
            AnswerStep::Finish { text, reply, no_reply } => AnswerStepView::Finish {
                text: text@,
                reply: option_text(reply),
                no_reply,
            },
            AnswerStep::Remind => AnswerStepView::Remind,
            AnswerStep::Ask { prose, deliver, question, options, timeout_secs } =>
            AnswerStepView::Ask {
                prose: prose@,
                deliver,
                asked: Asked {
                    question: question@,
                    options: texts(options@),
                    timeout_secs: timeout_view(timeout_secs),
                },
            },
            AnswerStep::RunTools { narration, browses, calls } => AnswerStepView::RunTools {
                narration: option_text(narration),
                browses,
                calls: tool_calls_view(calls@),
            },
            AnswerStep::Abort(text) => AnswerStepView::Abort(text@),
        }
    }
}

/// Whether one of the calls is of the tool `name`.
pub open spec fn calls_tool(calls: Seq<ToolCallView>, name: Seq<char>) -> bool {
    exists|i: int| 0 <= i < calls.len() && (#[trigger] calls[i]).name == name
}

/// The rounds in a row without arguments, once a round with the calls `calls`
/// is over.
pub open spec fn empty_rounds_after(rounds: nat, calls: Seq<ToolCallView>) -> nat {
    if calls.len() == 0 {
        rounds
    } else if all_empty(calls) {
        rounds + 1
    } else {
        0
    }
}

/// The loop once an answer has come in. An answer of nothing but reasoning is
/// not kept for the provider.
pub open spec fn answered(state: LoopView, kind: ApiKind, response: ResponseView) -> LoopView {
    LoopView {
        history: state.history.push(answer_message(response)),
        raw: if response.text.len() > 0 || response.calls.len() > 0 {
            state.raw.push(raw_answer(kind, response))
        } else {
            state.raw
        },
        empty_rounds: empty_rounds_after(state.empty_rounds, response.calls),
        reply: ReplyView { only: false, ..state.reply },
        ..state
    }
}

/// What is delivered of the last answer of a turn: the answer, and where it
/// goes by the tool that the model did not call, a trace of that.
pub open spec fn delivered_text(text: Seq<char>, tool: bool) -> Seq<char> {
    if tool {
        text + AUTO_DELIVERED@
    } else {
        text
    }
}

/// Whether the model, which has failed to reply by its tool, has answered in
/// plain text after that.
pub open spec fn reminds(state: LoopView, response: ResponseView) -> bool {
    let text = without_malformed(response.text);
    &&& state.reply.tool
    &&& state.reply.failed is Some
    &&& response.calls.len() == 0
    &&& found_tag(text) is None
    &&& trim(text).len() > 0
}

/// What the model is told of a reply that was not delivered because of `error`.
pub open spec fn reminder_text(error: Seq<char>) -> Seq<char> {
    "[System reminder] Your last jyc_reply_message call FAILED and the reply was NOT delivered: "@
        + error
        + ". Plain text does not reach the user. Call jyc_reply_message again with a corrected message."@
}

/// The loop once the model has been reminded: it has to reply now.
pub open spec fn reminded(state: LoopView, kind: ApiKind) -> LoopView {
    let error = match state.reply.failed {
        Some(error) => error,
        None => Seq::empty(),
    };
    let blocks = seq![BlockView::Text { text: reminder_text(error) }];
    LoopView {
        history: state.history.push(MessageView { role: Role::User, content: blocks }),
        raw: state.raw.push(raw_user(kind, blocks)),
        reply: ReplyView { failed: None, only: true, ..state.reply },
        ..state
    }
}

/// The loop once an answer has been taken in.
pub open spec fn taken_in(state: LoopView, kind: ApiKind, response: ResponseView) -> LoopView {
    if reminds(state, response) {
        reminded(answered(state, kind, response), kind)
    } else {
        answered(state, kind, response)
    }
}

/// The error of a loop that is given up after `rounds` rounds without
/// arguments.
pub open spec fn empty_calls_error(rounds: nat) -> Seq<char> {
    "model generated tool calls with empty arguments for "@ + decimal_text(rounds)
        + " consecutive iterations — this usually indicates the provider does not support function calling correctly"@
}

/// What an answer leads to. One without tool calls ends the turn, unless it
/// asks the user in its text, or follows a reply that could not be sent.
pub open spec fn step_for(state: LoopView, response: ResponseView) -> AnswerStepView {
    let rounds = empty_rounds_after(state.empty_rounds, response.calls);
    if response.calls.len() == 0 {
        let text = without_malformed(response.text);
        match found_tag(text) {
            Some(tag) => AnswerStepView::Ask {
                prose: without_tags(text),
                deliver: trim(without_tags(text)).len() > 0,
                asked: tag.asked->0,
            },
            None => if reminds(state, response) {
                AnswerStepView::Remind
            } else {
                AnswerStepView::Finish {
                    text,
                    reply: if trim(text).len() > 0 {
                        Some(delivered_text(text, state.reply.tool))
                    } else {
                        None
                    },
                    no_reply: trim(response.text).len() == 0,
                }
            },
        }
    } else if all_empty(response.calls) && rounds >= MAX_EMPTY_TOOL_CALL_ITERATIONS {
        AnswerStepView::Abort(empty_calls_error(rounds))
    } else {
        AnswerStepView::RunTools {
            narration: if calls_tool(response.calls, "ask_user"@) && trim(response.text).len() > 0 {
                Some(without_tags(response.text))
            } else {
                None
            },
            browses: calls_tool(response.calls, "context_browse"@),
            calls: response.calls,
        }
    }
}

/// The tools to reply by.
pub open spec fn only_reply(tools: Seq<ToolView>) -> Seq<ToolView>
    decreases tools.len(),
{
    if tools.len() == 0 {
        Seq::empty()
    } else if tools.last().name == REPLY_TOOL@ {
        only_reply(tools.drop_last()).push(tools.last())
    } else {
        only_reply(tools.drop_last())
    }
}

/// The tools that are offered to the model: after a reminder nothing but the
/// one to reply by.
pub open spec fn offered(reply: ReplyView, tools: Seq<ToolView>) -> Seq<ToolView> {
    if reply.only {
        only_reply(tools)
    } else {
        tools
    }
}

/// Whether one of the calls is of the tool `name`.
fn any_calls(calls: &[ToolCall], name: &str) -> (r: bool)
    ensures
        r == calls_tool(tool_calls_view(calls@), name@),
{
    let ghost views = tool_calls_view(calls@);
    let mut i: usize = 0;
    while i < calls.len()
        invariant
            views == tool_calls_view(calls@),
            i <= calls@.len(),
            forall|k: int| 0 <= k < i ==> (#[trigger] views[k]).name != name@,
        decreases calls@.len() - i,
    {
        assert(views[i as int] == calls@[i as int]@);
        if same(calls[i].name.as_str(), name) {
            return true;
        }
        i += 1;
    }
    false
}

/// Whether there is anything but white space in the text.
fn says_anything(text: &str) -> (r: bool)
    ensures
        r == (trim(text@).len() > 0),
{
    !trimmed(text).as_str().is_empty()
}

/// What an answer without tool calls leads to.
fn finish_or_ask(reply: &ReplyState, text: &str) -> (r: AnswerStep)
    ensures
        forall|state: LoopView, response: ResponseView|
            state.reply == reply@ && response.text == text@ && response.calls.len() == 0 ==> r@
                == #[trigger] step_for(state, response),
{
    let no_reply: bool = !says_anything(text);
    let answer = strip_malformed(text);
    proof {
        crate::agent_loop::embedded_ask::law_no_malformed_tag_is_left(text@);
    }
    match find_embedded_ask(answer.as_str()) {
        Some(EmbeddedAsk::WellFormed { span: _, question, options, timeout_secs }) => {
            let prose = strip_tags(answer.as_str());
            let deliver: bool = says_anything(prose.as_str());
            AnswerStep::Ask { prose, deliver, question, options, timeout_secs }
        },
        _ => {
            if !says_anything(answer.as_str()) {
                return AnswerStep::Finish { text: answer, reply: None, no_reply };
            }
            if reply.tool && reply.failed.is_some() {
                return AnswerStep::Remind;
            }
            let delivered = if reply.tool {
                answer.as_str().to_owned().concat(AUTO_DELIVERED)
            } else {
                answer.as_str().to_owned()
            };
            AnswerStep::Finish { text: answer, reply: Some(delivered), no_reply }
        },
    }
}

impl LoopState {
    /// Reminds the model that its reply was not delivered.
    fn remind(&mut self, provider: &AnyProvider)
        requires
            old(self)@.reply.failed is Some,
        ensures
            final(self)@ == reminded(old(self)@, provider@.kind),
    {
        let ghost before = self@;
        let error = match self.reply.failed.take() {
            Some(error) => error,
            None => String::new(),
        };
        self.reply.only = true;
        let mut blocks: Vec<ContentBlock> = Vec::new();
        blocks.push(
            ContentBlock::Text {
                text: "[System reminder] Your last jyc_reply_message call FAILED and the reply was NOT delivered: ".to_owned().concat(
                    error.as_str(),
                ).concat(
                    ". Plain text does not reach the user. Call jyc_reply_message again with a corrected message.",
                ),
            },
        );
        assert(blocks_view(blocks@) =~= seq![
            BlockView::Text { text: reminder_text(before.reply.failed->0) },
        ]);
        let raw = provider.format_user_message(blocks.as_slice());
        self.raw_context.push(raw);
        assert(items_view(self.raw_context@) =~= before.raw.push(raw@));
        let message = Message::user_with_blocks(blocks);
        self.history.push(message);
        assert(messages_view(self.history@) =~= before.history.push(message@));
        assert(self@ =~= reminded(before, provider@.kind));
    }

    /// The tools that are offered to the model in the next round: after a
    /// reminder nothing but the one to reply by.
    pub fn offered_tools(&self, tools: Vec<ToolDefinition>) -> (r: Vec<ToolDefinition>)
        ensures
            tools_view(r@) == offered(self@.reply, tools_view(tools@)),
    {
        if !self.reply.only {
            return tools;
        }
        let ghost all = tools@;
        let ghost views = tools_view(tools@);
        let mut out: Vec<ToolDefinition> = Vec::new();
        assert(tools_view(out@) =~= only_reply(views.take(0)));
        for tool in it: tools
            invariant
                it.seq() == all,
                views == tools_view(all),
                tools_view(out@) == only_reply(views.take(it.index() as int)),
        {
            let ghost i = it.index() as int;
            let ghost before = tools_view(out@);
            assert(views[i] == tool@);
            assert(views.take(i + 1).drop_last() =~= views.take(i));
            if same(tool.name.as_str(), REPLY_TOOL) {
                out.push(tool);
                assert(tools_view(out@) =~= before.push(tool@));
            }
        }
        assert(views.take(all.len() as int) =~= views);
        out
    }

    /// Takes in an answer of the model.
    pub fn on_answer(&mut self, provider: &AnyProvider, response: CollectedResponse) -> (r:
        AnswerStep)
        requires
            old(self).empty_rounds < u32::MAX,
        ensures
            final(self)@ == taken_in(old(self)@, provider@.kind, response@),
            r@ == step_for(old(self)@, response@),
    {
        let ghost before = self@;
        let message = response.to_message();
        self.history.push(message);
        assert(messages_view(self.history@) =~= before.history.push(message@));
        if !response.text.as_str().is_empty() || response.tool_calls.len() > 0 {
            let raw = response.to_raw_message(provider);
            self.raw_context.push(raw);
            assert(items_view(self.raw_context@) =~= before.raw.push(raw@));
        }
        if response.tool_calls.len() == 0 {
            let step = finish_or_ask(&self.reply, response.text.as_str());
            self.reply.only = false;
            assert(self@ =~= answered(before, provider@.kind, response@));
            assert(step@ == step_for(before, response@));
            if let AnswerStep::Remind = &step {
                self.remind(provider);
            }
            return step;
        }
        self.reply.only = false;
        if all_tool_calls_empty(response.tool_calls.as_slice()) {
            self.empty_rounds = self.empty_rounds + 1;
            if self.empty_rounds >= MAX_EMPTY_TOOL_CALL_ITERATIONS {
                assert(self@ =~= answered(before, provider@.kind, response@));
                return AnswerStep::Abort(
                    "model generated tool calls with empty arguments for ".to_owned().concat(
                        decimal_string(self.empty_rounds as u64).as_str(),
                    ).concat(
                        " consecutive iterations — this usually indicates the provider does not support function calling correctly",
                    ),
                );
            }
        } else {
            self.empty_rounds = 0;
        }
        assert(self@ =~= answered(before, provider@.kind, response@));
        let narration: Option<String> = if any_calls(response.tool_calls.as_slice(), "ask_user")
            && says_anything(response.text.as_str()) {
            Some(strip_tags(response.text.as_str()))
        } else {
            None
        };
        let browses: bool = any_calls(response.tool_calls.as_slice(), "context_browse");
        AnswerStep::RunTools { narration, browses, calls: response.tool_calls }
    }
}

/// A tool's answer, as it is kept in a conversation with a provider of kind
/// `kind`.
pub open spec fn raw_tool_answer(
    kind: ApiKind,
    id: Seq<char>,
    content: Seq<char>,
    is_error: bool,
) -> JsonView {
    match kind {
        ApiKind::Anthropic => role_message("user"@, seq![tool_result_json(id, content, is_error)]),
        _ => tool_json(id, labeled(content, is_error)),
    }
}

/// The loop once a tool has answered the call `id`.
pub open spec fn tool_answered(
    state: LoopView,
    kind: ApiKind,
    id: Seq<char>,
    content: Seq<char>,
    is_error: bool,
) -> LoopView {
    LoopView {
        history: state.history.push(tool_answer(id, content, is_error)),
        raw: state.raw.push(raw_tool_answer(kind, id, content, is_error)),
        ..state
    }
}

/// What has become of the reply once a tool has answered a call. A reply that
/// was sent ends the turn, unless the model says that it goes on; one that is
/// silent sends nothing and ends the turn in any case.
pub open spec fn reply_after(
    reply: ReplyView,
    call: ToolCallView,
    content: Seq<char>,
    is_error: bool,
) -> ReplyView {
    let arguments = arguments_json(call.arguments);
    let silent = says_yes(arguments, "silent"@);
    if !reply.tool || call.name != REPLY_TOOL@ {
        reply
    } else if is_error {
        ReplyView { failed: Some(content), ..reply }
    } else {
        ReplyView {
            failed: None,
            sent: true,
            text: if silent {
                reply.text
            } else {
                arguments.text_field("message"@)
            },
            closing: reply.closing || silent || !says_no(arguments, "stop_after"@),
            ..reply
        }
    }
}

/// The loop once a tool has answered the call `call`.
pub open spec fn call_answered(
    state: LoopView,
    kind: ApiKind,
    call: ToolCallView,
    content: Seq<char>,
    is_error: bool,
) -> LoopView {
    LoopView {
        reply: reply_after(state.reply, call, content, is_error),
        ..tool_answered(state, kind, call.id, content, is_error)
    }
}

/// Whether the kept message is an answer with tool calls, in either form.
pub open spec fn is_calling(message: JsonView) -> bool {
    says(message, "role"@, "assistant"@) && (calls_of(message).len() > 0 || exists|i: int|
        0 <= i < blocks_of(message).len() && says(
            #[trigger] blocks_of(message)[i],
            "type"@,
            "tool_use"@,
        ))
}

/// Whether the block is a tool call.
pub open spec fn is_call_block(block: BlockView) -> bool {
    block is ToolUse
}

/// Whether the message is an answer with tool calls.
pub open spec fn uses_tools(message: MessageView) -> bool {
    message.role == Role::Assistant && exists|i: int|
        0 <= i < message.content.len() && is_call_block(#[trigger] message.content[i])
}

/// The first messages, up to the last one among the first `n` that is an answer
/// with tool calls; all of them where there is none.
pub open spec fn raw_before_calls(messages: Seq<JsonView>, n: int) -> Seq<JsonView>
    decreases n,
{
    if n <= 0 {
        messages
    } else if is_calling(messages[n - 1]) {
        messages.take(n - 1)
    } else {
        raw_before_calls(messages, n - 1)
    }
}

/// The first messages, up to the last one among the first `n` that is an answer
/// with tool calls; all of them where there is none.
pub open spec fn history_before_calls(messages: Seq<MessageView>, n: int) -> Seq<MessageView>
    decreases n,
{
    if n <= 0 {
        messages
    } else if uses_tools(messages[n - 1]) {
        messages.take(n - 1)
    } else {
        history_before_calls(messages, n - 1)
    }
}

/// The loop that was cancelled while tools ran: the answer that called them is
/// forgotten, with what they have answered.
pub open spec fn cancelled_tools(state: LoopView) -> LoopView {
    LoopView {
        history: history_before_calls(state.history, state.history.len() as int),
        raw: raw_before_calls(state.raw, state.raw.len() as int),
        ..state
    }
}

/// What images hold.
pub open spec fn images_view(images: Seq<ImageSource>) -> Seq<ImageView> {
    images.map_values(|image: ImageSource| image@)
}

/// The images as blocks.
pub open spec fn image_blocks(images: Seq<ImageView>) -> Seq<BlockView> {
    images.map_values(|image: ImageView| BlockView::Image { source: image })
}

/// The blocks that show the model the images that its tools have loaded.
pub open spec fn loaded_blocks(images: Seq<ImageView>) -> Seq<BlockView> {
    seq![
        BlockView::Text {
            text: "["@ + decimal_text(images.len())
                + " image(s) loaded by tool — see attached content]"@,
        },
    ] + image_blocks(images)
}

/// The loop once the images that tools have loaded are shown to the model.
pub open spec fn images_shown(state: LoopView, kind: ApiKind, images: Seq<ImageView>) -> LoopView {
    if images.len() == 0 {
        state
    } else {
        LoopView {
            history: state.history.push(
                MessageView { role: Role::User, content: loaded_blocks(images) },
            ),
            raw: state.raw.push(raw_user(kind, loaded_blocks(images))),
            ..state
        }
    }
}

/// The loop once a round is over.
pub open spec fn round_over(state: LoopView) -> LoopView {
    LoopView {
        iter_in_cycle: state.iter_in_cycle + 1,
        total_iterations: state.total_iterations + 1,
        ..state
    }
}

/// What is told of a round that is over.
pub open spec fn progress_text(state: LoopView) -> Seq<char> {
    "cycle "@ + decimal_text(state.cycle_count + 1) + ", iteration "@ + decimal_text(
        state.total_iterations + 1,
    ) + " ("@ + decimal_text(state.iter_in_cycle + 1) + "), "@ + decimal_text(
        state.tokens.context_input,
    ) + " tokens"@
}

/// Whether the message is an answer with tool calls.
fn message_uses_tools(message: &Message) -> (r: bool)
    ensures
        r == uses_tools(message@),
{
    if message.role != Role::Assistant {
        return false;
    }
    let ghost views = blocks_view(message.content@);
    let mut i: usize = 0;
    while i < message.content.len()
        invariant
            message.role == Role::Assistant,
            views == blocks_view(message.content@),
            i <= message.content@.len(),
            forall|k: int| 0 <= k < i ==> !is_call_block(#[trigger] views[k]),
        decreases message.content@.len() - i,
    {
        assert(views[i as int] == message.content@[i as int]@);
        if let ContentBlock::ToolUse { .. } = &message.content[i] {
            assert(is_call_block(message@.content[i as int]));
            return true;
        }
        i += 1;
    }
    false
}

/// Whether the kept message is an answer with tool calls.
fn message_is_calling(message: &Json) -> (r: bool)
    ensures
        r == is_calling(message@),
{
    if !field_is(message, "role", "assistant") {
        return false;
    }
    if let Some(calls) = message.get_array("tool_calls") {
        assert(items_view(calls@).len() == calls@.len());
        if calls.len() > 0 {
            return true;
        }
    }
    if let Some(blocks) = message.get_array("content") {
        let ghost views = items_view(blocks@);
        let mut i: usize = 0;
        while i < blocks.len()
            invariant
                views == items_view(blocks@),
                views == blocks_of(message@),
                says(message@, "role"@, "assistant"@),
                i <= blocks@.len(),
                forall|k: int| 0 <= k < i ==> !says(#[trigger] views[k], "type"@, "tool_use"@),
            decreases blocks@.len() - i,
        {
            assert(views[i as int] == blocks@[i as int]@);
            if field_is(&blocks[i], "type", "tool_use") {
                assert(says(blocks_of(message@)[i as int], "type"@, "tool_use"@));
                return true;
            }
            i += 1;
        }
    }
    false
}

impl ReplyState {
    /// Takes in that a tool has answered a call.
    fn note(&mut self, call: &ToolCall, content: &str, is_error: bool)
        ensures
            final(self)@ == reply_after(old(self)@, call@, content@, is_error),
    {
        if !self.tool || !same(call.name.as_str(), REPLY_TOOL) {
            return;
        }
        if is_error {
            self.failed = Some(content.to_owned());
            return;
        }
        let arguments = parse_arguments(call.arguments.as_str());
        let silent: bool = is_yes(&arguments, "silent");
        self.failed = None;
        self.sent = true;
        if !silent {
            self.text = match arguments.get_str("message") {
                Some(text) => Some(text.to_owned()),
                None => None,
            };
        }
        if silent || !is_no(&arguments, "stop_after") {
            self.closing = true;
        }
    }
}

impl LoopState {
    /// Keeps a tool's answer to the call `call`.
    pub fn on_tool_output(
        &mut self,
        provider: &AnyProvider,
        call: &ToolCall,
        content: &str,
        is_error: bool,
    )
        ensures
            final(self)@ == call_answered(old(self)@, provider@.kind, call@, content@, is_error),
    {
        self.keep_output(provider, call.id.as_str(), content, is_error);
        self.reply.note(call, content, is_error);
    }

    /// Keeps a tool's answer to the call `id`.
    fn keep_output(
        &mut self,
        provider: &AnyProvider,
        id: &str,
        content: &str,
        is_error: bool,
    )
        ensures
            final(self)@ == tool_answered(old(self)@, provider@.kind, id@, content@, is_error),
    {
        let ghost before = self@;
        let message = Message::tool_result(id, content, is_error);
        self.history.push(message);
        assert(messages_view(self.history@) =~= before.history.push(message@));
        let raw = provider.format_tool_result(id, content, is_error);
        self.raw_context.push(raw);
        assert(items_view(self.raw_context@) =~= before.raw.push(raw@));
    }

    /// Keeps what the user answered to a question that the model had written
    /// into its text.
    pub fn on_embedded_answer(&mut self, provider: &AnyProvider, content: &str, is_error: bool)
        ensures
            final(self)@ == tool_answered(
                old(self)@,
                provider@.kind,
                "embedded-ask-user"@,
                content@,
                is_error,
            ),
    {
        self.keep_output(provider, "embedded-ask-user", content, is_error);
    }

    /// Forgets the answer whose tools were cancelled.
    pub fn on_cancelled_tools(&mut self)
        ensures
            final(self)@ == cancelled_tools(old(self)@),
    {
        let ghost before = self@;
        let raw_len: usize = self.raw_context.len();
        let mut i: usize = raw_len;
        while i > 0
            invariant_except_break
                items_view(self.raw_context@) == before.raw,
                raw_before_calls(before.raw, i as int) == raw_before_calls(
                    before.raw,
                    before.raw.len() as int,
                ),
            invariant
                messages_view(self.history@) == before.history,
                self@.tokens == before.tokens,
                self@.max_iterations == before.max_iterations,
                self@.iter_in_cycle == before.iter_in_cycle,
                self@.cycle_count == before.cycle_count,
                self@.total_iterations == before.total_iterations,
                self@.empty_rounds == before.empty_rounds,
                self@.reply == before.reply,
                i <= raw_len == before.raw.len(),
            ensures
                items_view(self.raw_context@) == raw_before_calls(
                    before.raw,
                    before.raw.len() as int,
                ),
            decreases i,
        {
            assert(before.raw[i - 1] == self.raw_context@[i - 1]@);
            if message_is_calling(&self.raw_context[i - 1]) {
                self.raw_context.truncate(i - 1);
                assert(items_view(self.raw_context@) =~= before.raw.take(i - 1));
                break;
            }
            i -= 1;
        }
        let history_len: usize = self.history.len();
        let ghost middle = self@;
        let mut k: usize = history_len;
        while k > 0
            invariant_except_break
                messages_view(self.history@) == before.history,
                history_before_calls(before.history, k as int) == history_before_calls(
                    before.history,
                    before.history.len() as int,
                ),
            invariant
                self@.raw == middle.raw,
                self@.tokens == before.tokens,
                self@.max_iterations == before.max_iterations,
                self@.iter_in_cycle == before.iter_in_cycle,
                self@.cycle_count == before.cycle_count,
                self@.total_iterations == before.total_iterations,
                self@.empty_rounds == before.empty_rounds,
                self@.reply == before.reply,
                k <= history_len == before.history.len(),
            ensures
                messages_view(self.history@) == history_before_calls(
                    before.history,
                    before.history.len() as int,
                ),
            decreases k,
        {
            assert(before.history[k - 1] == self.history@[k - 1]@);
            if message_uses_tools(&self.history[k - 1]) {
                self.history.truncate(k - 1);
                assert(messages_view(self.history@) =~= before.history.take(k - 1));
                break;
            }
            k -= 1;
        }
        assert(self@ =~= cancelled_tools(before));
    }

    /// Shows the model the images that its tools have loaded.
    pub fn on_images(&mut self, provider: &AnyProvider, images: Vec<ImageSource>)
        ensures
            final(self)@ == images_shown(old(self)@, provider@.kind, images_view(images@)),
    {
        if images.len() == 0 {
            return;
        }
        let ghost before = self@;
        let ghost views = images_view(images@);
        let ghost all = images@;
        let mut blocks: Vec<ContentBlock> = Vec::new();
        let count: usize = images.len();
        blocks.push(
            ContentBlock::Text {
                text: "[".to_owned().concat(decimal_string(count as u64).as_str()).concat(
                    " image(s) loaded by tool — see attached content]",
                ),
            },
        );
        let ghost head = blocks_view(blocks@);
        assert(head =~= loaded_blocks(views).take(1));
        for image in it: images
            invariant
                it.seq() == all,
                views == images_view(all),
                blocks_view(blocks@) == head + image_blocks(views.take(it.index() as int)),
        {
            let ghost seen = blocks_view(blocks@);
            let ghost i = it.index() as int;
            blocks.push(ContentBlock::Image { source: image });
            proof {
                assert(views[i] == image@);
                assert(blocks_view(blocks@) =~= seen.push(BlockView::Image { source: image@ }));
                assert(image_blocks(views.take(i + 1)) =~= image_blocks(views.take(i)).push(
                    BlockView::Image { source: image@ },
                ));
            }
        }
        assert(views.take(all.len() as int) =~= views);
        assert(blocks_view(blocks@) =~= loaded_blocks(views));
        let raw = provider.format_user_message(blocks.as_slice());
        self.raw_context.push(raw);
        assert(items_view(self.raw_context@) =~= before.raw.push(raw@));
        let message = Message::user_with_blocks(blocks);
        self.history.push(message);
        assert(messages_view(self.history@) =~= before.history.push(message@));
    }

    /// Ends a round. The result tells of it.
    pub fn end_round(&mut self) -> (r: String)
        requires
            old(self).iter_in_cycle < usize::MAX,
            old(self).cycle_count < usize::MAX,
            old(self).total_iterations < usize::MAX,
        ensures
            final(self)@ == round_over(old(self)@),
            r@ == progress_text(old(self)@),
    {
        self.iter_in_cycle = self.iter_in_cycle + 1;
        self.total_iterations = self.total_iterations + 1;
        "cycle ".to_owned().concat(decimal_string((self.cycle_count + 1) as u64).as_str()).concat(
            ", iteration ",
        ).concat(decimal_string(self.total_iterations as u64).as_str()).concat(" (").concat(
            decimal_string(self.iter_in_cycle as u64).as_str(),
        ).concat("), ").concat(decimal_string(self.context_input_tokens).as_str()).concat(
            " tokens",
        )
    }
}

/// Texts as a JSON array.
pub open spec fn texts_json(items: Seq<Seq<char>>) -> JsonView {
    JsonView::Array(items.map_values(|item: Seq<char>| JsonView::Text(item)))
}

/// What the tool that asks the user is called with.
pub open spec fn ask_arguments(
    question: Seq<char>,
    options: Seq<Seq<char>>,
    timeout_secs: Option<u64>,
) -> JsonView {
    with_field(
        object2("question"@, JsonView::Text(question), "options"@, texts_json(options)),
        "timeout_seconds"@,
        match timeout_secs {
            Some(secs) => number_view(secs),
            None => JsonView::Null,
        },
    )
}

/// What the tool that asks the user is called with.
pub fn ask_input(question: &str, options: &[String], timeout_secs: Option<u64>) -> (r: Json)
    ensures
        r@ == ask_arguments(question@, texts(options@), timeout_secs),
{
    let ghost views = texts(options@);
    let mut items: Vec<Json> = Vec::new();
    let mut i: usize = 0;
    while i < options.len()
        invariant
            views == texts(options@),
            i <= options@.len(),
            items@.len() == i,
            forall|k: int| 0 <= k < i ==> #[trigger] items@[k]@ == JsonView::Text(views[k]),
        decreases options@.len() - i,
    {
        items.push(Json::text(options[i].as_str()));
        i += 1;
    }
    proof {
        crate::json::lemma_array_view(items);
        assert(items_view(items@) =~= views.map_values(|item: Seq<char>| JsonView::Text(item)));
    }
    let timeout = match timeout_secs {
        Some(secs) => Json::uint(secs),
        None => Json::Null,
    };
    Json::object().with("question", Json::text(question)).with("options", Json::Array(items)).with(
        "timeout_seconds",
        timeout,
    )
}

/// What is shown of a tool's answer: all of it where it failed and where it
/// edits, nothing otherwise.
pub fn shown_output(tool: &str, is_error: bool, content: &str) -> (r: Option<String>)
    ensures
        option_text(r) == if is_error || tool@ == "edit"@ {
            Some(content@)
        } else {
            None::<Seq<char>>
        },
{
    if is_error || same(tool, "edit") {
        Some(content.to_owned())
    } else {
        None
    }
}

/// Whether the error of a delivery says that a hook held the reply back.
pub fn is_suppressed(error: &str) -> (r: bool)
    ensures
        r == mentions(error@, "suppressed by reply_send hook"@),
{
    contains(error, "suppressed by reply_send hook")
}

/// What is told of a turn in which the model has said nothing.
pub open spec fn no_reply_text(total_iterations: nat) -> Seq<char> {
    "AI produced no text and no tool call in final iteration (total_iterations="@ + decimal_text(
        total_iterations,
    ) + ") — user will see no reply"@
}

/// What is told of a turn in which the model has said nothing.
pub fn no_reply_message(total_iterations: usize) -> (r: String)
    ensures
        r@ == no_reply_text(total_iterations as nat),
{
    "AI produced no text and no tool call in final iteration (total_iterations=".to_owned().concat(
        decimal_string(total_iterations as u64).as_str(),
    ).concat(") — user will see no reply")
}

/// What a turn has come to.
#[derive(Debug)]
pub struct AgentLoopResult {
    /// The answer.
    pub text: String,
    /// Whether the answer has been delivered.
    pub reply_delivered: bool,
    /// Whether the model's tool has sent a reply, or the model has decided to
    /// send none.
    pub reply_sent_by_tool: bool,
    /// Whether the loop has sent the reply by that tool in the model's stead.
    pub reply_auto_delivered: bool,
    /// What that tool has sent.
    pub reply_text_from_tool: Option<String>,
    /// The size of the context, as it was told last.
    pub input_tokens: u64,
    /// The prompt tokens of all calls.
    pub total_input_tokens: u64,
    /// The answer tokens of all calls.
    pub output_tokens: u64,
    /// The prompt tokens of all calls that came from a cache.
    pub total_cache_hit_tokens: u64,
    /// The prompt tokens of all calls that were written to a cache.
    pub total_cache_creation_tokens: u64,
    /// The answer tokens of all calls that were spent on reasoning.
    pub total_reasoning_tokens: u64,
    /// The conversation.
    pub history: Vec<Message>,
    /// The conversation as the provider takes it.
    pub raw_context: Vec<Json>,
}

/// How a turn has ended.
#[derive(Debug)]
pub struct TurnEnd {
    /// What it has come to.
    pub result: AgentLoopResult,
    /// Whether it is told as a success.
    pub success: bool,
}

/// What is known of a reply when a turn ends.
#[verifier::ext_equal]
pub struct Replied {
    /// The answer.
    pub text: Seq<char>,
    /// Whether the answer has been delivered.
    pub delivered: bool,
    /// Whether the model's tool has sent a reply, or the model has decided to
    /// send none.
    pub by_tool: bool,
    /// Whether the loop has sent the reply by that tool.
    pub auto_delivered: bool,
    /// What that tool has sent.
    pub tool_text: Option<Seq<char>>,
}

/// The reply of a turn that ends with the answer `text`.
pub open spec fn finished(reply: ReplyView, text: Seq<char>, delivered: bool) -> Replied {
    let auto_delivered = reply.tool && delivered;
    Replied {
        text,
        delivered,
        by_tool: reply.sent || auto_delivered,
        auto_delivered,
        tool_text: if auto_delivered {
            Some(delivered_text(text, true))
        } else {
            reply.text
        },
    }
}

/// The reply of a turn that ends with a reply by the model's tool.
pub open spec fn closed(reply: ReplyView) -> Replied {
    Replied {
        text: Seq::empty(),
        delivered: reply.text is Some,
        by_tool: reply.sent,
        auto_delivered: false,
        tool_text: reply.text,
    }
}

/// The reply of a turn that is cancelled: there is none but what the model's
/// tool had sent.
pub open spec fn cancelled(reply: ReplyView) -> Replied {
    Replied { delivered: false, ..closed(reply) }
}

impl AgentLoopResult {
    /// What is known of the reply.
    pub open spec fn replied(self) -> Replied {
        Replied {
            text: self.text@,
            delivered: self.reply_delivered,
            by_tool: self.reply_sent_by_tool,
            auto_delivered: self.reply_auto_delivered,
            tool_text: option_text(self.reply_text_from_tool),
        }
    }

    /// Whether the result keeps what the loop has kept: the conversation, and
    /// what was spent.
    pub open spec fn keeps(self, state: LoopView) -> bool {
        &&& messages_view(self.history@) == state.history
        &&& items_view(self.raw_context@) == state.raw
        &&& (TokenView {
            context_input: self.input_tokens as nat,
            input: self.total_input_tokens as nat,
            output: self.output_tokens as nat,
            cache_hit: self.total_cache_hit_tokens as nat,
            cache_creation: self.total_cache_creation_tokens as nat,
            reasoning: self.total_reasoning_tokens as nat,
        }) == state.tokens
    }
}

impl LoopState {
    /// What the turn has come to.
    fn into_result(
        self,
        text: String,
        reply_delivered: bool,
        reply_sent_by_tool: bool,
        reply_auto_delivered: bool,
        reply_text_from_tool: Option<String>,
    ) -> (r: AgentLoopResult)
        ensures
            r.keeps(self@),
            r.text == text,
            r.reply_delivered == reply_delivered,
            r.reply_sent_by_tool == reply_sent_by_tool,
            r.reply_auto_delivered == reply_auto_delivered,
            r.reply_text_from_tool == reply_text_from_tool,
    {
        AgentLoopResult {
            text,
            reply_delivered,
            reply_sent_by_tool,
            reply_auto_delivered,
            reply_text_from_tool,
            input_tokens: self.context_input_tokens,
            total_input_tokens: self.total_input_tokens,
            output_tokens: self.total_output_tokens,
            total_cache_hit_tokens: self.total_cache_hit_tokens,
            total_cache_creation_tokens: self.total_cache_creation_tokens,
            total_reasoning_tokens: self.total_reasoning_tokens,
            history: self.history,
            raw_context: self.raw_context,
        }
    }

    /// Ends the turn with the answer `text`; `delivered` tells whether what was
    /// to be delivered of it has been.
    pub fn finish(self, text: String, delivered: bool) -> (r: TurnEnd)
        ensures
            r.success,
            r.result.replied() == finished(self@.reply, text@, delivered),
            r.result.keeps(self@),
    {
        let auto_delivered: bool = self.reply.tool && delivered;
        let sent: bool = self.reply.sent || auto_delivered;
        let tool_text = if auto_delivered {
            Some(text.as_str().to_owned().concat(AUTO_DELIVERED))
        } else {
            copy_text(&self.reply.text)
        };
        TurnEnd {
            result: self.into_result(text, delivered, sent, auto_delivered, tool_text),
            success: true,
        }
    }

    /// Ends the turn with the reply that the model's tool has sent.
    pub fn close(self) -> (r: TurnEnd)
        ensures
            r.success,
            r.result.replied() == closed(self@.reply),
            r.result.keeps(self@),
    {
        let sent: bool = self.reply.sent;
        let tool_text = copy_text(&self.reply.text);
        let delivered: bool = tool_text.is_some();
        TurnEnd {
            result: self.into_result(String::new(), delivered, sent, false, tool_text),
            success: true,
        }
    }

    /// Ends the turn that was cancelled: there is no answer, and the turn is
    /// told as failed, but it is no error.
    pub fn cancel(self) -> (r: TurnEnd)
        ensures
            !r.success,
            r.result.text@.len() == 0,
            !r.result.reply_delivered,
            r.result.replied() == cancelled(self@.reply),
            r.result.keeps(self@),
    {
        let sent: bool = self.reply.sent;
        let tool_text = copy_text(&self.reply.text);
        TurnEnd {
            result: self.into_result(String::new(), false, sent, false, tool_text),
            success: false,
        }
    }
}

/// A copy of a text, where there is one.
fn copy_text(text: &Option<String>) -> (r: Option<String>)
    ensures
        option_text(r) == option_text(*text),
{
    match text {
        Some(text) => Some(text.as_str().to_owned()),
        None => None,
    }
}

/// Whether the counts of the rounds agree: the rounds of all cycles are those
/// of the cycles that are over and those of this one.
pub open spec fn rounds_agree(state: LoopView) -> bool {
    &&& state.iter_in_cycle <= state.max_iterations
    &&& state.total_iterations == state.cycle_count * state.max_iterations + state.iter_in_cycle
}

/// The counts of the rounds agree at the start, and each step keeps them so.
pub proof fn law_rounds_agree(
    state: LoopView,
    kind: ApiKind,
    history: Seq<MessageView>,
    raw: Seq<JsonView>,
    blocks: Seq<BlockView>,
    max_iterations: Option<usize>,
    reply_tool: bool,
)
    ensures
        rounds_agree(started(kind, history, raw, blocks, max_iterations, reply_tool)),
        rounds_agree(state) && cycle_over(state) ==> rounds_agree(next_cycle(state)),
        rounds_agree(state) && !cycle_over(state) ==> rounds_agree(round_over(state)),
{
    let m = state.max_iterations;
    let c = state.cycle_count;
    assert((c + 1) * m == c * m + m) by (nonlinear_arith);
    let s = started(kind, history, raw, blocks, max_iterations, reply_tool);
    assert(0 * s.max_iterations == 0) by (nonlinear_arith);
}

/// The loop once tools have given the answers `outputs`: the call, the answer,
/// and whether the tool failed.
pub open spec fn tools_answered(
    state: LoopView,
    kind: ApiKind,
    outputs: Seq<(ToolCallView, Seq<char>, bool)>,
) -> LoopView
    decreases outputs.len(),
{
    if outputs.len() == 0 {
        state
    } else {
        let last = outputs.last();
        call_answered(
            tools_answered(state, kind, outputs.drop_last()),
            kind,
            last.0,
            last.1,
            last.2,
        )
    }
}

proof fn lemma_raw_tool_answer(kind: ApiKind, id: Seq<char>, content: Seq<char>, is_error: bool)
    ensures
        !is_calling(raw_tool_answer(kind, id, content, is_error)),
{
    reveal_strlit("role");
    reveal_strlit("content");
    reveal_strlit("tool_call_id");
    reveal_strlit("tool");
    reveal_strlit("assistant");
    assert("role"@.len() != "content"@.len());
    assert("role"@.len() != "tool_call_id"@.len());
    reveal_strlit("user");
    assert("tool"@.len() != "assistant"@.len());
    assert("user"@.len() != "assistant"@.len());
    let json = raw_tool_answer(kind, id, content, is_error);
    let role = if kind == ApiKind::Anthropic {
        "user"@
    } else {
        "tool"@
    };
    assert(json.field("role"@) == Some(JsonView::Text(role)));
}

proof fn lemma_raw_answer_calls(kind: ApiKind, response: ResponseView)
    requires
        response.calls.len() > 0,
    ensures
        is_calling(raw_answer(kind, response)),
{
    reveal_strlit("role");
    reveal_strlit("content");
    reveal_strlit("reasoning_content");
    reveal_strlit("tool_calls");
    assert("role"@.len() != "content"@.len());
    assert("role"@.len() != "reasoning_content"@.len());
    assert("role"@.len() != "tool_calls"@.len());
    let json = raw_answer(kind, response);
    assert(json.field("role"@) == Some(JsonView::Text("assistant"@)));
    if kind == ApiKind::Anthropic {
        reveal_strlit("type");
        reveal_strlit("id");
        reveal_strlit("name");
        reveal_strlit("input");
        assert("type"@.len() != "id"@.len());
        assert("type"@[0] != "name"@[0]);
        assert("type"@.len() != "input"@.len());
        let blocks = blocks_of(json);
        assert(says(blocks[blocks.len() - 1], "type"@, "tool_use"@));
    } else {
        assert(json.array_field("tool_calls"@) is Some);
    }
}

proof fn lemma_answer_uses_tools(response: ResponseView)
    requires
        response.calls.len() > 0,
    ensures
        uses_tools(answer_message(response)),
{
    let content = answer_message(response).content;
    let at = content.len() - 1;
    assert(content[at] == crate::agent_loop::response::call_block(response.calls.last()));
    assert(is_call_block(content[at]));
}

proof fn lemma_back_to_answer(
    state: LoopView,
    kind: ApiKind,
    response: ResponseView,
    outputs: Seq<(ToolCallView, Seq<char>, bool)>,
)
    requires
        response.calls.len() > 0,
    ensures
        ({
            let after = tools_answered(answered(state, kind, response), kind, outputs);
            &&& history_before_calls(after.history, after.history.len() as int) == state.history
            &&& raw_before_calls(after.raw, after.raw.len() as int) == state.raw
        }),
    decreases outputs.len(),
{
    let first = answered(state, kind, response);
    let after = tools_answered(first, kind, outputs);
    if outputs.len() == 0 {
        lemma_answer_uses_tools(response);
        assert(after.history.take(after.history.len() - 1) =~= state.history);
        lemma_raw_answer_calls(kind, response);
        assert(after.raw.take(after.raw.len() - 1) =~= state.raw);
    } else {
        let last = outputs.last();
        let before = tools_answered(first, kind, outputs.drop_last());
        lemma_back_to_answer(state, kind, response, outputs.drop_last());
        lemma_answer_is_inside(state, kind, response, outputs.drop_last());
        assert(before.history =~= after.history.take(before.history.len() as int));
        lemma_history_prefix(before.history, after.history, before.history.len() as int);
        lemma_raw_tool_answer(kind, last.0.id, last.1, last.2);
        assert(before.raw =~= after.raw.take(before.raw.len() as int));
        lemma_raw_prefix(before.raw, after.raw, before.raw.len() as int);
    }
}

/// The answer that called the tools stands in the conversation.
proof fn lemma_answer_is_inside(
    state: LoopView,
    kind: ApiKind,
    response: ResponseView,
    outputs: Seq<(ToolCallView, Seq<char>, bool)>,
)
    requires
        response.calls.len() > 0,
    ensures
        ({
            let after = tools_answered(answered(state, kind, response), kind, outputs);
            &&& after.history.len() > state.history.len()
            &&& uses_tools(after.history[state.history.len() as int])
            &&& after.raw.len() > state.raw.len()
            &&& is_calling(after.raw[state.raw.len() as int])
        }),
    decreases outputs.len(),
{
    if outputs.len() == 0 {
        lemma_answer_uses_tools(response);
        lemma_raw_answer_calls(kind, response);
    } else {
        lemma_answer_is_inside(state, kind, response, outputs.drop_last());
    }
}

proof fn lemma_history_prefix(short: Seq<MessageView>, long: Seq<MessageView>, n: int)
    requires
        0 <= n <= short.len() <= long.len(),
        short == long.take(short.len() as int),
        exists|i: int| 0 <= i < n && uses_tools(#[trigger] short[i]),
    ensures
        history_before_calls(short, n) == history_before_calls(long, n),
    decreases n,
{
    assert(short[n - 1] == long[n - 1]);
    if uses_tools(short[n - 1]) {
        assert(short.take(n - 1) =~= long.take(n - 1));
    } else {
        lemma_history_prefix(short, long, n - 1);
    }
}

proof fn lemma_raw_prefix(short: Seq<JsonView>, long: Seq<JsonView>, n: int)
    requires
        0 <= n <= short.len() <= long.len(),
        short == long.take(short.len() as int),
        exists|i: int| 0 <= i < n && is_calling(#[trigger] short[i]),
    ensures
        raw_before_calls(short, n) == raw_before_calls(long, n),
    decreases n,
{
    assert(short[n - 1] == long[n - 1]);
    if is_calling(short[n - 1]) {
        assert(short.take(n - 1) =~= long.take(n - 1));
    } else {
        lemma_raw_prefix(short, long, n - 1);
    }
}

/// A cancelled round leaves no trace in the conversation: whatever tools had
/// answered by then, it is what it was before the answer that called them, and
/// so is what the provider takes.
pub proof fn law_cancelling_forgets_the_answer(
    state: LoopView,
    kind: ApiKind,
    response: ResponseView,
    outputs: Seq<(ToolCallView, Seq<char>, bool)>,
)
    requires
        response.calls.len() > 0,
    ensures
        ({
            let end = cancelled_tools(tools_answered(answered(state, kind, response), kind, outputs));
            &&& end.history == state.history
            &&& end.raw == state.raw
        }),
{
    lemma_back_to_answer(state, kind, response, outputs);
}

/// The rounds in a row without arguments, after the rounds `rounds`.
pub open spec fn empty_streak(rounds: Seq<Seq<ToolCallView>>) -> nat
    decreases rounds.len(),
{
    if rounds.len() == 0 {
        0
    } else {
        empty_rounds_after(empty_streak(rounds.drop_last()), rounds.last())
    }
}

/// The loop is given up exactly where the calls of the last three rounds all
/// have no arguments, and those rounds called tools.
pub proof fn law_given_up_after_three_empty_rounds(rounds: Seq<Seq<ToolCallView>>)
    requires
        forall|i: int| 0 <= i < rounds.len() ==> (#[trigger] rounds[i]).len() > 0,
    ensures
        empty_streak(rounds) >= MAX_EMPTY_TOOL_CALL_ITERATIONS <==> rounds.len() >= 3 && all_empty(
            rounds[rounds.len() - 1],
        ) && all_empty(rounds[rounds.len() - 2]) && all_empty(rounds[rounds.len() - 3]),
{
    reveal_with_fuel(empty_streak, 4);
    let n = rounds.len();
    if n >= 1 {
        assert(rounds.last().len() > 0);
        if n >= 2 {
            assert(rounds.drop_last().last() == rounds[n - 2]);
            if n >= 3 {
                assert(rounds.drop_last().drop_last().last() == rounds[n - 3]);
            }
        }
    }
}

/// No text that the user is shown holds a tag: neither what is told before the
/// tools run, nor what is told before a question, nor the reply at the end. An
/// answer in text that holds a readable tag, with no broken one before it, asks
/// what that tag asks.
pub proof fn law_tags_are_not_delivered(state: LoopView, response: ResponseView)
    ensures
        match step_for(state, response) {
            AnswerStepView::Finish { text, reply, .. } => found_tag(text) is None && (reply
                matches Some(reply) ==> found_tag(reply) is None),
            AnswerStepView::Ask { prose, asked, .. } => found_tag(prose) is None && (found_tag(
                without_malformed(response.text),
            ) matches Some(tag) && tag.asked == Some(asked)),
            AnswerStepView::RunTools { narration, .. } => narration matches Some(text)
                ==> found_tag(text) is None,
            AnswerStepView::Remind => found_tag(without_malformed(response.text)) is None,
            AnswerStepView::Abort(_) => true,
        },
{
    crate::agent_loop::embedded_ask::law_no_malformed_tag_is_left(response.text);
    crate::agent_loop::embedded_ask::law_no_tag_is_left(response.text);
    let text = without_malformed(response.text);
    crate::agent_loop::embedded_ask::law_no_tag_is_left(text);
    if found_tag(text) is None {
        lemma_trace();
        crate::agent_loop::embedded_ask::lemma_no_tag_behind(text, AUTO_DELIVERED@);
    }
}

proof fn lemma_trace()
    ensures
        AUTO_DELIVERED@.len() > 0,
        is_white(AUTO_DELIVERED@[0]),
        forall|i: int| 0 <= i < AUTO_DELIVERED@.len() ==> AUTO_DELIVERED@[i] != '<',
{
    reveal_strlit("\n\n— auto-delivered");
}

/// A reply in the model's stead goes by the tool that the model has, and is told
/// with its trace. A turn that is cancelled, or ends with a reply of the model's
/// own, has none, and no answer besides.
pub proof fn law_replies_are_told(reply: ReplyView, text: Seq<char>, delivered: bool)
    ensures
        finished(reply, text, delivered).auto_delivered ==> reply.tool && delivered && finished(
            reply,
            text,
            delivered,
        ).tool_text == Some(text + AUTO_DELIVERED@),
        finished(reply, text, delivered).auto_delivered ==> finished(reply, text, delivered).by_tool,
        !reply.tool ==> finished(reply, text, delivered).tool_text == reply.text,
        !cancelled(reply).auto_delivered && !closed(reply).auto_delivered,
        closed(reply).text.len() == 0 && cancelled(reply).text.len() == 0,
{
}

/// The model is reminded at most once of a reply that failed: after that it is
/// not reminded again until another reply fails.
pub proof fn law_one_reminder_for_a_failure(
    state: LoopView,
    kind: ApiKind,
    response: ResponseView,
    next: ResponseView,
)
    requires
        reminds(state, response),
    ensures
        !reminds(taken_in(state, kind, response), next),
        taken_in(state, kind, response).reply.only,
        taken_in(state, kind, response).reply.failed is None,
{
}

/// A silent reply ends the turn with nothing sent. Any other ends it with its
/// text, unless the model says that it goes on.
pub proof fn law_last_reply_closes(
    tool: bool,
    call: ToolCallView,
    content: Seq<char>,
)
    requires
        tool,
        call.name == REPLY_TOOL@,
    ensures
        ({
            let arguments = arguments_json(call.arguments);
            let reply = reply_after(no_reply_yet(tool), call, content, false);
            &&& says_yes(arguments, "silent"@) ==> reply.closing && closed(reply) == (Replied {
                text: Seq::empty(),
                delivered: false,
                by_tool: true,
                auto_delivered: false,
                tool_text: None,
            })
            &&& !says_yes(arguments, "silent"@) ==> {
                &&& reply.closing == !says_no(arguments, "stop_after"@)
                &&& closed(reply).by_tool
                &&& closed(reply).tool_text == arguments.text_field("message"@)
            }
        }),
{
}

/// Every token that an answer tells is counted once.
pub proof fn law_tokens_add_up(tokens: TokenView, a: ResponseView, b: ResponseView)
    ensures
        spent(spent(tokens, a), b).output == tokens.output + a.output_tokens + b.output_tokens,
        spent(spent(tokens, a), b).input == tokens.input + a.input_tokens + b.input_tokens,
        spent(spent(tokens, a), b).context_input == if b.input_tokens > 0 {
            b.input_tokens as nat
        } else if a.input_tokens > 0 {
            a.input_tokens as nat
        } else {
            tokens.context_input
        },
{
}

/// What the model has written under `name` in the arguments of a call.
pub open spec fn written(call: ToolCallView, name: Seq<char>) -> Option<JsonView> {
    match text_as_json(call.arguments) {
        Some(JsonView::Object(fields)) => if fields.dom().contains(name) {
            Some(fields[name])
        } else {
            None
        },
        _ => None,
    }
}

/// Whether the tool's answer is one to a reply to the user.
pub open spec fn is_to_reply(output: (ToolCallView, Seq<char>, bool)) -> bool {
    output.0.name == "jyc_reply_message"@
}

/// Whether the reply is a silent one: the model decides to send nothing.
pub open spec fn keeps_silent(call: ToolCallView) -> bool {
    written(call, "silent"@) == Some(JsonView::Bool(true))
}

/// Whether the reply is one of those after which the model goes on: it sends
/// something, and says so.
pub open spec fn is_checkpoint(call: ToolCallView) -> bool {
    !keeps_silent(call) && written(call, "stop_after"@) == Some(JsonView::Bool(false))
}

/// Whether one of the answers is to a reply that was sent and ends the turn.
pub open spec fn one_closes(outputs: Seq<(ToolCallView, Seq<char>, bool)>) -> bool {
    exists|i: int|
        0 <= i < outputs.len() && is_to_reply(#[trigger] outputs[i]) && !outputs[i].2
            && !is_checkpoint(outputs[i].0)
}

/// Whether one of the answers is to a reply that was sent.
pub open spec fn one_was_sent(outputs: Seq<(ToolCallView, Seq<char>, bool)>) -> bool {
    exists|i: int| 0 <= i < outputs.len() && is_to_reply(#[trigger] outputs[i]) && !outputs[i].2
}

/// A turn ends with its tools exactly where one of the replies that were sent
/// was silent or did not say that the model goes on: a reply after which the
/// model goes on leaves the turn open, however many were sent before. A reply
/// counts as sent wherever one was, and neither the tool that replies go by nor
/// what the model may do next changes.
pub proof fn law_only_a_last_reply_closes(
    state: LoopView,
    kind: ApiKind,
    outputs: Seq<(ToolCallView, Seq<char>, bool)>,
)
    ensures
        ({
            let end = tools_answered(state, kind, outputs).reply;
            &&& end.closing <==> state.reply.closing || (state.reply.tool && one_closes(outputs))
            &&& end.sent <==> state.reply.sent || (state.reply.tool && one_was_sent(outputs))
            &&& end.tool == state.reply.tool
            &&& end.only == state.reply.only
        }),
    decreases outputs.len(),
{
    if outputs.len() > 0 {
        let before = outputs.drop_last();
        let last = outputs.last();
        law_only_a_last_reply_closes(state, kind, before);
        assert(outputs =~= before.push(last));
        assert(outputs[outputs.len() - 1] == last);
        if one_closes(before) {
            let i = choose|i: int|
                0 <= i < before.len() && is_to_reply(#[trigger] before[i]) && !before[i].2
                    && !is_checkpoint(before[i].0);
            assert(outputs[i] == before[i]);
        }
        if one_was_sent(before) {
            let i = choose|i: int|
                0 <= i < before.len() && is_to_reply(#[trigger] before[i]) && !before[i].2;
            assert(outputs[i] == before[i]);
        }
        if one_closes(outputs) {
            let i = choose|i: int|
                0 <= i < outputs.len() && is_to_reply(#[trigger] outputs[i]) && !outputs[i].2
                    && !is_checkpoint(outputs[i].0);
            if i < before.len() {
                assert(before[i] == outputs[i]);
            }
        }
        if one_was_sent(outputs) {
            let i = choose|i: int|
                0 <= i < outputs.len() && is_to_reply(#[trigger] outputs[i]) && !outputs[i].2;
            if i < before.len() {
                assert(before[i] == outputs[i]);
            }
        }
    }
}

/// The reply that is told of is the last one that was sent and not silent, in
/// the words that the model has written; what other tools answer, and replies
/// that failed, do not change it. What failed is remembered by the last reply
/// alone: its error, or nothing where it was sent.
pub proof fn law_last_reply_is_told(
    state: LoopView,
    kind: ApiKind,
    outputs: Seq<(ToolCallView, Seq<char>, bool)>,
    i: int,
)
    requires
        state.reply.tool,
        0 <= i < outputs.len(),
        is_to_reply(outputs[i]),
    ensures
        ({
            let end = tools_answered(state, kind, outputs).reply;
            &&& !outputs[i].2 && !keeps_silent(outputs[i].0) && (forall|k: int|
                i < k < outputs.len() && is_to_reply(#[trigger] outputs[k]) ==> outputs[k].2
                    || keeps_silent(outputs[k].0)) ==> end.text == match written(
                outputs[i].0,
                "message"@,
            ) {
                Some(JsonView::Text(message)) => Some(message),
                _ => None,
            }
            &&& (forall|k: int| i < k < outputs.len() ==> !is_to_reply(#[trigger] outputs[k]))
                ==> end.failed == if outputs[i].2 {
                Some(outputs[i].1)
            } else {
                None::<Seq<char>>
            }
        }),
    decreases outputs.len(),
{
    let before = outputs.drop_last();
    assert(tools_answered(state, kind, before).reply.tool) by {
        law_only_a_last_reply_closes(state, kind, before);
    }
    if i < before.len() {
        assert(before[i] == outputs[i]);
        assert(forall|k: int| 0 <= k < before.len() ==> before[k] == outputs[k]);
        law_last_reply_is_told(state, kind, before, i);
        assert(outputs[outputs.len() - 1] == outputs.last());
    }
}

/// Where no reply was called, nothing of the reply changes.
pub proof fn law_other_tools_do_not_reply(
    state: LoopView,
    kind: ApiKind,
    outputs: Seq<(ToolCallView, Seq<char>, bool)>,
)
    requires
        !state.reply.tool || forall|i: int|
            0 <= i < outputs.len() ==> !is_to_reply(#[trigger] outputs[i]),
    ensures
        tools_answered(state, kind, outputs).reply == state.reply,
    decreases outputs.len(),
{
    if outputs.len() > 0 {
        let before = outputs.drop_last();
        assert(forall|i: int| 0 <= i < before.len() ==> before[i] == outputs[i]);
        law_other_tools_do_not_reply(state, kind, before);
        assert(!state.reply.tool || !is_to_reply(outputs[outputs.len() - 1]));
    }
}

/// Every tool's answer is kept once, in the order of the calls, under the id of
/// its call; what was kept before stays, and nothing else is counted or spent.
pub proof fn law_tool_answers_are_kept(
    state: LoopView,
    kind: ApiKind,
    outputs: Seq<(ToolCallView, Seq<char>, bool)>,
)
    ensures
        ({
            let end = tools_answered(state, kind, outputs);
            &&& end.history.len() == state.history.len() + outputs.len()
            &&& end.raw.len() == state.raw.len() + outputs.len()
            &&& end.history.take(state.history.len() as int) == state.history
            &&& end.raw.take(state.raw.len() as int) == state.raw
            &&& forall|i: int|
                #![trigger outputs[i]]
                0 <= i < outputs.len() ==> {
                    &&& end.history[state.history.len() + i] == (MessageView {
                        role: Role::Tool,
                        content: seq![
                            BlockView::ToolResult {
                                tool_use_id: outputs[i].0.id,
                                content: outputs[i].1,
                                is_error: outputs[i].2,
                            },
                        ],
                    })
                    &&& end.raw[state.raw.len() + i] == raw_tool_answer(
                        kind,
                        outputs[i].0.id,
                        outputs[i].1,
                        outputs[i].2,
                    )
                }
            &&& end.tokens == state.tokens
            &&& end.iter_in_cycle == state.iter_in_cycle
            &&& end.cycle_count == state.cycle_count
            &&& end.total_iterations == state.total_iterations
            &&& end.max_iterations == state.max_iterations
            &&& end.empty_rounds == state.empty_rounds
        }),
    decreases outputs.len(),
{
    if outputs.len() > 0 {
        let before = outputs.drop_last();
        law_tool_answers_are_kept(state, kind, before);
        let middle = tools_answered(state, kind, before);
        let end = tools_answered(state, kind, outputs);
        assert(end.history =~= middle.history.push(end.history.last()));
        assert(end.raw =~= middle.raw.push(end.raw.last()));
        assert(end.history.take(state.history.len() as int) =~= middle.history.take(
            state.history.len() as int,
        ));
        assert(end.raw.take(state.raw.len() as int) =~= middle.raw.take(state.raw.len() as int));
        assert forall|i: int| #![trigger outputs[i]] 0 <= i < outputs.len() implies {
            &&& end.history[state.history.len() + i] == tool_answer(
                outputs[i].0.id,
                outputs[i].1,
                outputs[i].2,
            )
            &&& end.raw[state.raw.len() + i] == raw_tool_answer(
                kind,
                outputs[i].0.id,
                outputs[i].1,
                outputs[i].2,
            )
        } by {
            if i < before.len() {
                assert(before[i] == outputs[i]);
                assert(end.history[state.history.len() + i] == middle.history[state.history.len()
                    + i]);
                assert(end.raw[state.raw.len() + i] == middle.raw[state.raw.len() + i]);
            } else {
                assert(outputs[i] == outputs.last());
            }
        }
    } else {
        assert(state.history.take(state.history.len() as int) =~= state.history);
        assert(state.raw.take(state.raw.len() as int) =~= state.raw);
    }
}

} // verus!
