//! The model's answer, as it is collected from its event stream.
use crate::json::{empty_object, parse_json, text_as_json, Json, JsonView};
use crate::numbers::{decimal_string, decimal_text};
use crate::provider::anthropic::{answer_blocks, role_message};
use crate::provider::openai_compat::answer_json;
use crate::provider::select::{AnyProvider, ApiKind};
use crate::text::{
    after, begins, chars_of, contains, find, lemma_find_from, lemma_find_shift, mentions, same,
    search, starts_with, trim, trim_start, trimmed, trimmed_start,
};
use crate::types::{
    blocks_view, call_views, BlockView, ContentBlock, EventView, Message, MessageView, Role,
    StreamEvent,
};
use vstd::prelude::*;
use vstd::string::*;

verus! {

/// A tool call of an answer.
#[derive(Debug)]
pub struct ToolCall {
    /// The call's id.
    pub id: String,
    /// The tool's name.
    pub name: String,
    /// The text of the arguments.
    pub arguments: String,
}

/// What a [`ToolCall`] holds.
#[verifier::ext_equal]
pub struct ToolCallView {
    /// The call's id.
    pub id: Seq<char>,
    /// The tool's name.
    pub name: Seq<char>,
    /// The text of the arguments.
    pub arguments: Seq<char>,
}

impl View for ToolCall {
    type V = ToolCallView;

    open spec fn view(&self) -> ToolCallView {
        ToolCallView { id: self.id@, name: self.name@, arguments: self.arguments@ }
    }
}

impl Clone for ToolCall {
    /// The same call.
    fn clone(&self) -> (r: Self)
        ensures
            r@ == self@,
    {
        ToolCall {
            id: self.id.clone(),
            name: self.name.clone(),
            arguments: self.arguments.clone(),
        }
    }
}

/// What a list of tool calls holds.
pub open spec fn tool_calls_view(calls: Seq<ToolCall>) -> Seq<ToolCallView> {
    calls.map_values(|call: ToolCall| call@)
}

/// A whole answer of the model.
#[derive(Debug)]
pub struct CollectedResponse {
    /// The text.
    pub text: String,
    /// The reasoning.
    pub reasoning_content: String,
    /// The tool calls.
    pub tool_calls: Vec<ToolCall>,
    /// Tokens of the prompt.
    pub input_tokens: u64,
    /// Tokens of the answer.
    pub output_tokens: u64,
    /// Prompt tokens that came from a cache.
    pub cache_hit_tokens: u64,
    /// Prompt tokens that were written to a cache.
    pub cache_creation_tokens: u64,
    /// Answer tokens that were spent on reasoning.
    pub reasoning_tokens: u64,
}

/// What a [`CollectedResponse`] holds.
#[verifier::ext_equal]
pub struct ResponseView {
    /// The text.
    pub text: Seq<char>,
    /// The reasoning.
    pub reasoning: Seq<char>,
    /// The tool calls.
    pub calls: Seq<ToolCallView>,
    /// Tokens of the prompt.
    pub input_tokens: u64,
    /// Tokens of the answer.
    pub output_tokens: nat,
    /// Prompt tokens that came from a cache.
    pub cache_hit_tokens: u64,
    /// Prompt tokens that were written to a cache.
    pub cache_creation_tokens: u64,
    /// Answer tokens that were spent on reasoning.
    pub reasoning_tokens: nat,
}

impl View for CollectedResponse {
    type V = ResponseView;

    open spec fn view(&self) -> ResponseView {
        ResponseView {
            text: self.text@,
            reasoning: self.reasoning_content@,
            calls: tool_calls_view(self.tool_calls@),
            input_tokens: self.input_tokens,
            output_tokens: self.output_tokens as nat,
            cache_hit_tokens: self.cache_hit_tokens,
            cache_creation_tokens: self.cache_creation_tokens,
            reasoning_tokens: self.reasoning_tokens as nat,
        }
    }
}

/// An answer that is being collected.
#[derive(Debug)]
pub struct Collector {
    /// What has come in.
    pub response: CollectedResponse,
    /// The id and the name of the tool call that has begun and not ended.
    pub open_call: Option<(String, String)>,
    /// The arguments that have come in for it.
    pub arguments: String,
}

/// What a [`Collector`] holds.
#[verifier::ext_equal]
pub struct CollectorView {
    /// What has come in.
    pub response: ResponseView,
    /// The id and the name of the tool call that has begun and not ended.
    pub open_call: Option<(Seq<char>, Seq<char>)>,
    /// The arguments that have come in for it.
    pub arguments: Seq<char>,
}

impl View for Collector {
    type V = CollectorView;

    open spec fn view(&self) -> CollectorView {
        CollectorView {
            response: self.response@,
            open_call: match self.open_call {
                Some((id, name)) => Some((id@, name@)),
                None => None,
            },
            arguments: self.arguments@,
        }
    }
}

/// Nothing collected.
pub open spec fn nothing_collected() -> CollectorView {
    CollectorView {
        response: ResponseView {
            text: Seq::empty(),
            reasoning: Seq::empty(),
            calls: Seq::empty(),
            input_tokens: 0,
            output_tokens: 0,
            cache_hit_tokens: 0,
            cache_creation_tokens: 0,
            reasoning_tokens: 0,
        },
        open_call: None,
        arguments: Seq::empty(),
    }
}

/// The open tool call joins the calls of the answer.
pub open spec fn closed_call(state: CollectorView) -> CollectorView {
    match state.open_call {
        Some((id, name)) => CollectorView {
            response: ResponseView {
                calls: state.response.calls.push(
                    ToolCallView { id, name, arguments: state.arguments },
                ),
                ..state.response
            },
            open_call: None,
            arguments: Seq::empty(),
        },
        None => state,
    }
}

/// What is collected once `event` has come in. A tool call that begins closes
/// the one before it; the counts of the prompt are those told last, the counts
/// of the answer add up.
pub open spec fn after_event(state: CollectorView, event: EventView) -> CollectorView {
    match event {
        EventView::TextDelta(text) => CollectorView {
            response: ResponseView { text: state.response.text + text, ..state.response },
            ..state
        },
        EventView::ReasoningDelta(text) => CollectorView {
            response: ResponseView { reasoning: state.response.reasoning + text, ..state.response },
            ..state
        },
        EventView::ToolUseStart { id, name } => CollectorView {
            open_call: Some((id, name)),
            ..closed_call(state)
        },
        EventView::ToolInputDelta(text) => CollectorView {
            arguments: state.arguments + text,
            ..state
        },
        EventView::ToolUseEnd => closed_call(state),
        EventView::Usage {
            input_tokens,
            output_tokens,
            cache_hit_tokens,
            cache_creation_tokens,
            reasoning_tokens,
        } => CollectorView {
            response: ResponseView {
                input_tokens,
                output_tokens: state.response.output_tokens + output_tokens as nat,
                cache_hit_tokens,
                cache_creation_tokens,
                reasoning_tokens: state.response.reasoning_tokens + reasoning_tokens as nat,
                ..state.response
            },
            ..state
        },
        _ => state,
    }
}

/// Whether the counts of the answer can be held.
pub open spec fn counts_fit(state: CollectorView) -> bool {
    state.response.output_tokens <= u64::MAX && state.response.reasoning_tokens <= u64::MAX
}

/// What an event means for the collecting.
#[derive(Debug, PartialEq, Eq)]
pub enum CollectStep {
    /// More is to come.
    More,
    /// The answer is complete.
    Complete,
    /// The answer failed, with an error of this text.
    Failed(String),
}

/// The error of an answer that the provider reports as failed.
pub open spec fn provider_error(text: Seq<char>) -> Seq<char> {
    "LLM error: "@ + text
}

impl Default for Collector {
    /// Nothing collected.
    fn default() -> (r: Self)
        ensures
            r@ == nothing_collected(),
    {
        let r = Collector {
            response: CollectedResponse {
                text: String::new(),
                reasoning_content: String::new(),
                tool_calls: Vec::new(),
                input_tokens: 0,
                output_tokens: 0,
                cache_hit_tokens: 0,
                cache_creation_tokens: 0,
                reasoning_tokens: 0,
            },
            open_call: None,
            arguments: String::new(),
        };
        assert(r@ =~= nothing_collected());
        r
    }
}

impl Collector {
    /// The open tool call joins the calls of the answer.
    fn close_call(&mut self)
        ensures
            final(self)@ == closed_call(old(self)@),
    {
        let ghost before = *self;
        let mut open: Option<(String, String)> = None;
        std::mem::swap(&mut open, &mut self.open_call);
        match open {
            Some((id, name)) => {
                let mut arguments = String::new();
                std::mem::swap(&mut arguments, &mut self.arguments);
                self.response.tool_calls.push(ToolCall { id, name, arguments });
                assert(self@.response.calls =~= closed_call(before@).response.calls);
                assert(self@.arguments =~= Seq::empty());
                assert(self@ =~= closed_call(before@));
            },
            None => {
                assert(self@ =~= before@);
            },
        }
    }

    /// Takes in an event.
    pub fn on_event(&mut self, event: StreamEvent) -> (r: CollectStep)
        requires
            counts_fit(after_event(old(self)@, event@)),
        ensures
            final(self)@ == after_event(old(self)@, event@),
            match r {
                CollectStep::More => !(event@ is Done) && !(event@ is Error),
                CollectStep::Complete => event@ is Done,
                CollectStep::Failed(text) => event@ is Error && text@ == provider_error(
                    event@->Error_0,
                ),
            },
    {
        let ghost before = *self;
        match event {
            StreamEvent::TextDelta(text) => {
                self.response.text.append(text.as_str());
                assert(self@ =~= after_event(before@, event@));
                CollectStep::More
            },
            StreamEvent::ReasoningDelta(text) => {
                self.response.reasoning_content.append(text.as_str());
                assert(self@ =~= after_event(before@, event@));
                CollectStep::More
            },
            StreamEvent::ToolUseStart { id, name } => {
                self.close_call();
                self.open_call = Some((id, name));
                assert(self@ =~= after_event(before@, event@));
                CollectStep::More
            },
            StreamEvent::ToolInputDelta(text) => {
                self.arguments.append(text.as_str());
                assert(self@ =~= after_event(before@, event@));
                CollectStep::More
            },
            StreamEvent::ToolUseEnd => {
                self.close_call();
                CollectStep::More
            },
            StreamEvent::Usage {
                input_tokens,
                output_tokens,
                cache_hit_tokens,
                cache_creation_tokens,
                reasoning_tokens,
            } => {
                self.response.input_tokens = input_tokens;
                self.response.output_tokens = self.response.output_tokens + output_tokens;
                self.response.cache_hit_tokens = cache_hit_tokens;
                self.response.cache_creation_tokens = cache_creation_tokens;
                self.response.reasoning_tokens = self.response.reasoning_tokens + reasoning_tokens;
                assert(self@ =~= after_event(before@, event@));
                CollectStep::More
            },
            StreamEvent::Done => CollectStep::Complete,
            StreamEvent::Error(text) => CollectStep::Failed(
                "LLM error: ".to_owned().concat(text.as_str()),
            ),
        }
    }

    /// The answer, once the stream is over. One that was not said to be
    /// complete has been cut off.
    pub fn finish(self, complete: bool) -> (r: Result<CollectedResponse, String>)
        ensures
            match r {
                Ok(response) => complete && response@ == closed_call(self@).response,
                Err(text) => !complete && text@
                    == "SSE stream ended without Done marker (truncated mid-stream)"@,
            },
    {
        if !complete {
            return Err("SSE stream ended without Done marker (truncated mid-stream)".to_owned());
        }
        let mut state = self;
        state.close_call();
        Ok(state.response)
    }
}

/// What a provider's stream yields: events, or the text of an error.
pub open spec fn items_view(items: Seq<Result<StreamEvent, String>>) -> Seq<
    Result<EventView, Seq<char>>,
> {
    items.map_values(
        |item: Result<StreamEvent, String>|
            match item {
                Ok(event) => Ok(event@),
                Err(text) => Err(text@),
            },
    )
}

/// The answer that a stream tells from item `i` on, where `state` is what has
/// come in before.
pub open spec fn told_from(
    items: Seq<Result<EventView, Seq<char>>>,
    i: int,
    state: CollectorView,
) -> Result<ResponseView, Seq<char>>
    decreases items.len() - i,
{
    if i < 0 || i >= items.len() {
        Err("SSE stream ended without Done marker (truncated mid-stream)"@)
    } else {
        match items[i] {
            Err(text) => Err(text),
            Ok(EventView::Done) => Ok(closed_call(state).response),
            Ok(EventView::Error(text)) => Err(provider_error(text)),
            Ok(event) => told_from(items, i + 1, after_event(state, event)),
        }
    }
}

/// Whether the counts of the answer can be held all along.
pub open spec fn fits_from(
    items: Seq<Result<EventView, Seq<char>>>,
    i: int,
    state: CollectorView,
) -> bool
    decreases items.len() - i,
{
    0 <= i < items.len() ==> match items[i] {
        Err(text) => true,
        Ok(event) => counts_fit(after_event(state, event)) && fits_from(
            items,
            i + 1,
            after_event(state, event),
        ),
    }
}

/// The answer that a stream tells: what came in up to the event that completes
/// it. An error in the stream is the answer's error, and so is its end where
/// nothing has completed the answer.
pub fn collect_response(items: Vec<Result<StreamEvent, String>>) -> (r: Result<
    CollectedResponse,
    String,
>)
    requires
        fits_from(items_view(items@), 0, nothing_collected()),
    ensures
        match r {
            Ok(response) => told_from(items_view(items@), 0, nothing_collected()) == Ok::<
                ResponseView,
                Seq<char>,
            >(response@),
            Err(text) => told_from(items_view(items@), 0, nothing_collected()) == Err::<
                ResponseView,
                Seq<char>,
            >(text@),
        },
{
    let ghost all = items@;
    let ghost views = items_view(items@);
    let mut state = Collector::default();
    for item in it: items
        invariant
            it.seq() == all,
            views == items_view(all),
            fits_from(views, it.index() as int, state@),
            told_from(views, it.index() as int, state@) == told_from(
                views,
                0,
                nothing_collected(),
            ),
    {
        assert(item == all[it.index() as int]);
        match item {
            Err(text) => {
                return Err(text);
            },
            Ok(event) => {
                assert(views[it.index() as int] == Ok::<EventView, Seq<char>>(event@));
                match state.on_event(event) {
                    CollectStep::More => {},
                    CollectStep::Complete => {
                        return state.finish(true);
                    },
                    CollectStep::Failed(text) => {
                        return Err(text);
                    },
                }
            },
        }
    }
    state.finish(false)
}

/// How many tool calls the items before item `n` begin.
pub open spec fn calls_begun(items: Seq<Result<EventView, Seq<char>>>, n: int) -> nat
    decreases n,
{
    if n <= 0 || n > items.len() {
        0
    } else {
        calls_begun(items, n - 1) + (if items[n - 1] matches Ok(EventView::ToolUseStart { .. }) {
            1nat
        } else {
            0nat
        })
    }
}

/// The text of the text events before item `n`, one after the other.
pub open spec fn text_told(items: Seq<Result<EventView, Seq<char>>>, n: int) -> Seq<char>
    decreases n,
{
    if n <= 0 || n > items.len() {
        Seq::empty()
    } else {
        text_told(items, n - 1) + match items[n - 1] {
            Ok(EventView::TextDelta(text)) => text,
            _ => Seq::empty(),
        }
    }
}

/// Whether the first `n` items are events that neither complete the answer nor
/// report an error.
pub open spec fn all_more(items: Seq<Result<EventView, Seq<char>>>, n: int) -> bool {
    forall|i: int|
        0 <= i < n ==> (#[trigger] items[i] is Ok) && !(items[i]->Ok_0 is Done) && !(
        items[i]->Ok_0 is Error)
}

proof fn lemma_nothing_is_lost(
    items: Seq<Result<EventView, Seq<char>>>,
    i: int,
    n: int,
    state: CollectorView,
)
    requires
        0 <= i <= n < items.len(),
        all_more(items, n),
        items[n] == Ok::<EventView, Seq<char>>(EventView::Done),
        state.response.text == text_told(items, i),
        state.response.calls.len() + (if state.open_call is Some {
            1int
        } else {
            0int
        }) == calls_begun(items, i),
    ensures
        told_from(items, i, state) is Ok,
        told_from(items, i, state)->Ok_0.text == text_told(items, n),
        told_from(items, i, state)->Ok_0.calls.len() == calls_begun(items, n),
    decreases n - i,
{
    if i < n {
        let event = items[i]->Ok_0;
        assert(items[i] == Ok::<EventView, Seq<char>>(event));
        let next = after_event(state, event);
        assert(text_told(items, i + 1) =~= next.response.text);
        lemma_nothing_is_lost(items, i + 1, n, next);
    }
}

/// No text and no tool call is lost: the answer of a stream that completes at
/// item `n` has all the text that was told before, in order, and one tool call
/// for each that had begun, ended or not.
pub proof fn law_nothing_is_lost(items: Seq<Result<EventView, Seq<char>>>, n: int)
    requires
        0 <= n < items.len(),
        all_more(items, n),
        items[n] == Ok::<EventView, Seq<char>>(EventView::Done),
    ensures
        told_from(items, 0, nothing_collected()) is Ok,
        told_from(items, 0, nothing_collected())->Ok_0.text == text_told(items, n),
        told_from(items, 0, nothing_collected())->Ok_0.calls.len() == calls_begun(items, n),
{
    lemma_nothing_is_lost(items, 0, n, nothing_collected());
}

proof fn lemma_cut_off(items: Seq<Result<EventView, Seq<char>>>, i: int, state: CollectorView)
    requires
        0 <= i <= items.len(),
        all_more(items, items.len() as int),
    ensures
        told_from(items, i, state) is Err,
    decreases items.len() - i,
{
    if i < items.len() {
        assert(items[i] is Ok);
        lemma_cut_off(items, i + 1, after_event(state, items[i]->Ok_0));
    }
}

/// A stream that ends before the answer is said to be complete gives no answer.
pub proof fn law_cut_off_is_rejected(items: Seq<Result<EventView, Seq<char>>>)
    requires
        all_more(items, items.len() as int),
    ensures
        told_from(items, 0, nothing_collected()) is Err,
{
    lemma_cut_off(items, 0, nothing_collected());
}

/// It does not matter how the text, or the arguments of a tool call, are cut
/// into events.
pub proof fn law_deltas_join(state: CollectorView, a: Seq<char>, b: Seq<char>)
    ensures
        after_event(after_event(state, EventView::TextDelta(a)), EventView::TextDelta(b))
            == after_event(state, EventView::TextDelta(a + b)),
        after_event(after_event(state, EventView::ToolInputDelta(a)), EventView::ToolInputDelta(b))
            == after_event(state, EventView::ToolInputDelta(a + b)),
{
    assert(state.response.text + a + b =~= state.response.text + (a + b));
    assert(state.arguments + a + b =~= state.arguments + (a + b));
}

/// The error of a stream that has yielded nothing for too long.
pub fn stream_timed_out(secs: u64) -> (r: String)
    ensures
        r@ == "SSE stream timed out: no events for "@ + decimal_text(secs as nat) + "s"@,
{
    "SSE stream timed out: no events for ".to_owned().concat(decimal_string(secs).as_str()).concat(
        "s",
    )
}

/// How long the reasoning is not shown again after it was shown, in
/// milliseconds.
pub const THINKING_PUBLISH_INTERVAL_MS: u64 = 500;

/// Whether the reasoning is to be shown now; `since_last_ms` is how long ago it
/// was shown last.
pub fn thinking_due(enabled: bool, since_last_ms: Option<u64>) -> (r: bool)
    ensures
        r == (enabled && match since_last_ms {
            None => true,
            Some(ms) => ms >= THINKING_PUBLISH_INTERVAL_MS,
        }),
{
    enabled && match since_last_ms {
        None => true,
        Some(ms) => ms >= THINKING_PUBLISH_INTERVAL_MS,
    }
}

/// The arguments of a tool call; what is no JSON counts as no arguments.
pub open spec fn arguments_json(arguments: Seq<char>) -> JsonView {
    match text_as_json(arguments) {
        Some(json) => json,
        None => empty_object(),
    }
}

/// The arguments of a tool call; what is no JSON counts as no arguments.
pub fn parse_arguments(arguments: &str) -> (r: Json)
    ensures
        r@ == arguments_json(arguments@),
{
    match parse_json(arguments) {
        Some(json) => json,
        None => Json::object(),
    }
}

/// A tool call as a block of a message.
pub open spec fn call_block(call: ToolCallView) -> BlockView {
    BlockView::ToolUse { id: call.id, name: call.name, input: arguments_json(call.arguments) }
}

/// The tool calls as blocks of a message.
pub open spec fn call_blocks(calls: Seq<ToolCallView>) -> Seq<BlockView> {
    calls.map_values(|call: ToolCallView| call_block(call))
}

/// An answer as a message: its text, where there is any, and its tool calls.
pub open spec fn answer_message(response: ResponseView) -> MessageView {
    MessageView {
        role: Role::Assistant,
        content: (if response.text.len() > 0 {
            seq![BlockView::Text { text: response.text }]
        } else {
            Seq::empty()
        }) + call_blocks(response.calls),
    }
}

/// The tool calls of an answer, as providers take them.
pub open spec fn call_triples(calls: Seq<ToolCallView>) -> Seq<(Seq<char>, Seq<char>, Seq<char>)> {
    calls.map_values(|call: ToolCallView| (call.id, call.name, call.arguments))
}

/// An answer as it is kept in a conversation with a provider of kind `kind`.
pub open spec fn raw_answer(kind: ApiKind, response: ResponseView) -> JsonView {
    match kind {
        ApiKind::Anthropic => role_message(
            "assistant"@,
            answer_blocks(response.text, call_triples(response.calls)),
        ),
        _ => answer_json(response.text, response.reasoning, call_triples(response.calls)),
    }
}

impl CollectedResponse {
    /// The answer as a message.
    pub fn to_message(&self) -> (r: Message)
        ensures
            r@ == answer_message(self@),
    {
        let ghost calls = self@.calls;
        let mut content: Vec<ContentBlock> = Vec::new();
        if !self.text.as_str().is_empty() {
            content.push(ContentBlock::Text { text: self.text.clone() });
        }
        let ghost head = blocks_view(content@);
        proof {
            if self@.text.len() > 0 {
                assert(head =~= seq![BlockView::Text { text: self@.text }]);
            } else {
                assert(head =~= Seq::empty());
            }
        }
        let mut i: usize = 0;
        while i < self.tool_calls.len()
            invariant
                calls == tool_calls_view(self.tool_calls@),
                i <= self.tool_calls@.len(),
                blocks_view(content@) == head + call_blocks(calls.take(i as int)),
            decreases self.tool_calls@.len() - i,
        {
            let call = &self.tool_calls[i];
            let ghost before = content@;
            content.push(
                ContentBlock::ToolUse {
                    id: call.id.clone(),
                    name: call.name.clone(),
                    input: parse_arguments(call.arguments.as_str()),
                },
            );
            proof {
                assert(calls[i as int] == call@);
                assert(blocks_view(content@) =~= blocks_view(before).push(call_block(call@)));
                assert(call_blocks(calls.take(i + 1)) =~= call_blocks(calls.take(i as int)).push(
                    call_block(call@),
                ));
            }
            i += 1;
        }
        assert(calls.take(self.tool_calls@.len() as int) =~= calls);
        Message { role: Role::Assistant, content }
    }

    /// The answer as it is kept in a conversation with `provider`.
    pub fn to_raw_message(&self, provider: &AnyProvider) -> (r: Json)
        ensures
            r@ == raw_answer(provider@.kind, self@),
    {
        let ghost calls = self@.calls;
        let mut triples: Vec<(String, String, String)> = Vec::new();
        let mut i: usize = 0;
        while i < self.tool_calls.len()
            invariant
                calls == tool_calls_view(self.tool_calls@),
                i <= self.tool_calls@.len(),
                call_views(triples@) == call_triples(calls.take(i as int)),
            decreases self.tool_calls@.len() - i,
        {
            let call = &self.tool_calls[i];
            let ghost before = triples@;
            triples.push((call.id.clone(), call.name.clone(), call.arguments.clone()));
            proof {
                let triple = (call.id@, call.name@, call.arguments@);
                assert(calls[i as int] == call@);
                assert(call_views(triples@) =~= call_views(before).push(triple));
                assert(call_triples(calls.take(i + 1)) =~= call_triples(calls.take(i as int)).push(
                    triple,
                ));
            }
            i += 1;
        }
        assert(calls.take(self.tool_calls@.len() as int) =~= calls);
        provider.build_raw_assistant_message(
            self.text.as_str(),
            self.reasoning_content.as_str(),
            triples.as_slice(),
        )
    }
}

/// Whether the text begins, white space aside, with the syntax of a tool call:
/// the model has written the call out as text.
pub open spec fn leaks_call(text: Seq<char>) -> bool {
    let start = trim_start(text);
    ||| begins(start, "<call tool="@)
    ||| begins(start, "<parameter name="@)
    ||| begins(start, "<argument key="@)
    ||| begins(start, "</call>"@)
    ||| begins(start, "<tool_call>"@)
    ||| begins(start, "<invoke"@)
    ||| begins(start, "<response tools="@)
}

/// Whether the text begins, white space aside, with the syntax of a tool call.
/// Text that only quotes the syntax further on does not count.
pub fn looks_like_leaked_tool_call(text: &str) -> (r: bool)
    ensures
        r == leaks_call(text@),
{
    let start = trimmed_start(text);
    let start = start.as_str();
    starts_with(start, "<call tool=") || starts_with(start, "<parameter name=") || starts_with(
        start,
        "<argument key=",
    ) || starts_with(start, "</call>") || starts_with(start, "<tool_call>") || starts_with(
        start,
        "<invoke",
    ) || starts_with(start, "<response tools=")
}

/// How often `pattern` stands in `s`, places that overlap not counted twice.
pub open spec fn times(s: Seq<char>, pattern: Seq<char>) -> nat
    decreases s.len(),
{
    match find(s, pattern) {
        Some(i) => if pattern.len() == 0 {
            0
        } else {
            proof {
                lemma_find_from(s, pattern, 0);
            }
            1 + times(after(s, i + pattern.len()), pattern)
        },
        None => 0,
    }
}

/// How often the opening of a tool call is repeated where it is no quotation.
pub const STORM_LIMIT: usize = 3;

/// Whether the text beside valid tool calls holds the rest of a call that was
/// written out: a closing tag, or an opening over and over again. One opening
/// alone may be a quotation.
pub open spec fn leaks_beside_calls(text: Seq<char>) -> bool {
    ||| mentions(text, "</call>"@)
    ||| mentions(text, "</parameter>"@)
    ||| mentions(text, "</argument>"@)
    ||| mentions(text, "</tool_call>"@)
    ||| mentions(text, "</invoke>"@)
    ||| mentions(text, "</response_tools>"@)
    ||| times(text, "<call tool="@) >= STORM_LIMIT
    ||| times(text, "<parameter name="@) >= STORM_LIMIT
    ||| times(text, "<argument key="@) >= STORM_LIMIT
    ||| times(text, "<tool_call>"@) >= STORM_LIMIT
    ||| times(text, "<invoke"@) >= STORM_LIMIT
    ||| times(text, "<response tools="@) >= STORM_LIMIT
    ||| times(text, "<response_tools>"@) >= STORM_LIMIT
}

/// Whether `pattern` stands in `s` at least `limit` times.
fn at_least(s: &str, pattern: &str, limit: usize) -> (r: bool)
    requires
        pattern@.len() > 0,
    ensures
        r == (times(s@, pattern@) >= limit),
{
    let chars = chars_of(s);
    let wanted = chars_of(pattern);
    let n: usize = chars.len();
    let mut at: usize = 0;
    let mut count: usize = 0;
    assert(after(s@, 0) =~= s@);
    while count < limit
        invariant
            chars@ == s@,
            wanted@ == pattern@,
            pattern@.len() > 0,
            at <= chars@.len() == n,
            count <= limit,
            times(s@, pattern@) == count + times(after(s@, at as int), pattern@),
        decreases limit - count,
    {
        let ghost rest = after(s@, at as int);
        proof {
            lemma_find_shift(s@, pattern@, at as int);
            lemma_find_from(s@, pattern@, at as int);
        }
        match search(chars.as_slice(), wanted.as_slice(), at) {
            Some(i) => {
                let ghost old_at = at;
                at = i + wanted.len();
                assert(after(s@, at as int) =~= after(rest, i - old_at + pattern@.len()));
                count += 1;
            },
            None => {
                return false;
            },
        }
    }
    true
}

/// Whether the text beside valid tool calls holds the rest of a call that was
/// written out.
pub fn looks_like_leak_in_mixed_response(text: &str) -> (r: bool)
    ensures
        r == leaks_beside_calls(text@),
{
    proof {
        reveal_strlit("<call tool=");
        reveal_strlit("<parameter name=");
        reveal_strlit("<argument key=");
        reveal_strlit("<tool_call>");
        reveal_strlit("<invoke");
        reveal_strlit("<response tools=");
        reveal_strlit("<response_tools>");
    }
    contains(text, "</call>") || contains(text, "</parameter>") || contains(text, "</argument>")
        || contains(text, "</tool_call>") || contains(text, "</invoke>") || contains(
        text,
        "</response_tools>",
    ) || at_least(text, "<call tool=", STORM_LIMIT) || at_least(
        text,
        "<parameter name=",
        STORM_LIMIT,
    ) || at_least(text, "<argument key=", STORM_LIMIT) || at_least(
        text,
        "<tool_call>",
        STORM_LIMIT,
    ) || at_least(text, "<invoke", STORM_LIMIT) || at_least(text, "<response tools=", STORM_LIMIT)
        || at_least(text, "<response_tools>", STORM_LIMIT)
}

/// Whether some tool call has no name.
pub open spec fn has_nameless_call(calls: Seq<ToolCallView>) -> bool {
    exists|i: int| 0 <= i < calls.len() && trim((#[trigger] calls[i]).name).len() == 0
}

/// Whether some tool call has no name.
fn any_nameless(calls: &[ToolCall]) -> (r: bool)
    ensures
        r == has_nameless_call(tool_calls_view(calls@)),
{
    let ghost views = tool_calls_view(calls@);
    let mut i: usize = 0;
    while i < calls.len()
        invariant
            views == tool_calls_view(calls@),
            i <= calls@.len(),
            forall|k: int| 0 <= k < i ==> trim((#[trigger] views[k]).name).len() != 0,
        decreases calls@.len() - i,
    {
        assert(views[i as int] == calls@[i as int]@);
        if trimmed(calls[i].name.as_str()).as_str().is_empty() {
            return true;
        }
        i += 1;
    }
    false
}

/// Whether the answer is broken: a tool call is written out in its text, or one
/// of its tool calls has no name.
pub open spec fn is_broken(response: ResponseView) -> bool {
    ||| (if response.calls.len() == 0 {
        leaks_call(response.text)
    } else {
        leaks_beside_calls(response.text)
    })
    ||| has_nameless_call(response.calls)
}

/// The answer, where it is not broken.
pub fn check_response(response: CollectedResponse) -> (r: Result<CollectedResponse, String>)
    ensures
        match r {
            Ok(checked) => !is_broken(response@) && checked == response,
            Err(text) => is_broken(response@) && text@
                == "provider format failure: model emitted tool-call syntax as text"@,
        },
{
    let leaked: bool = if response.tool_calls.len() == 0 {
        looks_like_leaked_tool_call(response.text.as_str())
    } else {
        looks_like_leak_in_mixed_response(response.text.as_str())
    };
    if leaked || any_nameless(response.tool_calls.as_slice()) {
        Err("provider format failure: model emitted tool-call syntax as text".to_owned())
    } else {
        Ok(response)
    }
}

/// Whether a tool call has no arguments to speak of.
pub open spec fn is_empty_call(call: ToolCallView) -> bool {
    trim(call.arguments).len() == 0 || trim(call.arguments) == "{}"@
}

/// Whether there are tool calls and all of them have no arguments.
pub open spec fn all_empty(calls: Seq<ToolCallView>) -> bool {
    calls.len() > 0 && forall|i: int| 0 <= i < calls.len() ==> is_empty_call(#[trigger] calls[i])
}

/// Whether there are tool calls and all of them have no arguments.
pub fn all_tool_calls_empty(tool_calls: &[ToolCall]) -> (r: bool)
    ensures
        r == all_empty(tool_calls_view(tool_calls@)),
{
    let ghost views = tool_calls_view(tool_calls@);
    let mut i: usize = 0;
    while i < tool_calls.len()
        invariant
            views == tool_calls_view(tool_calls@),
            i <= tool_calls@.len(),
            forall|k: int| 0 <= k < i ==> is_empty_call(#[trigger] views[k]),
        decreases tool_calls@.len() - i,
    {
        assert(views[i as int] == tool_calls@[i as int]@);
        let arguments = trimmed(tool_calls[i].arguments.as_str());
        if !(arguments.as_str().is_empty() || same(arguments.as_str(), "{}")) {
            assert(!is_empty_call(views[i as int]));
            return false;
        }
        i += 1;
    }
    tool_calls.len() > 0
}

} // verus!
