//! What of a conversation is sent to the model.
use crate::agent_loop::response::{raw_answer, ResponseView};
use crate::json::{items_view, with_field, Json, JsonView};
use crate::provider::anthropic::{role_message, user_blocks_json};
use crate::provider::messages::{field_is, says};
use crate::provider::openai_compat::user_json;
use crate::provider::select::{AnyProvider, ApiKind};
use crate::session::{
    answer_of, cut_down, cut_text, extract_message_text, extract_pairs,
    extract_user_assistant_pairs, is_history_note, is_note, last_of, last_turns_start,
    message_text, truncate_text, turns_in, turns_view, verbatim_start_index, TurnView,
};
use crate::text::join;
use crate::types::{
    blocks_text, blocks_view, BlockView, ContentBlock, Message, MessageView, Role,
};
use vstd::prelude::*;
use vstd::string::*;

verus! {

/// How much of a conversation is sent.
#[derive(Debug, Clone, Copy, PartialEq, Eq, Structural)]
pub enum ContextStrategy {
    /// All of it.
    Full,
    /// The latest turns, the older ones of them as plain text.
    SlidingWindow,
}

/// How a conversation is cut down before it is sent.
#[derive(Debug, Clone, Copy, PartialEq, Eq)]
pub struct ContextStrategyConfig {
    /// How much of it is sent.
    pub mode: ContextStrategy,
    /// How many earlier turns are sent.
    pub window: usize,
    /// How many of them are sent as they are; all of them where nothing is set.
    pub note_window: Option<usize>,
    /// How many bytes of a tool's answer are sent; all of them where nothing is
    /// set, and where it is 0.
    pub tool_result_cap: Option<usize>,
}

/// A conversation while its last pairs are looked for: the pairs, and what the
/// user said last that is not answered yet.
#[verifier::ext_equal]
pub struct PairReading {
    /// The pairs.
    pub pairs: Seq<(MessageView, MessageView)>,
    /// What the user said last.
    pub said: Option<MessageView>,
}

/// An answer of plain text.
pub open spec fn text_answer(text: Seq<char>) -> MessageView {
    MessageView { role: Role::Assistant, content: seq![BlockView::Text { text }] }
}

/// What is read once `message` has been read: the first answer with text pairs
/// with what the user said last.
pub open spec fn read_pair(reading: PairReading, message: MessageView) -> PairReading {
    match message.role {
        Role::User => PairReading { said: Some(message), ..reading },
        Role::Assistant => match reading.said {
            Some(said) => if blocks_text(message.content).len() > 0 {
                PairReading {
                    pairs: reading.pairs.push((said, text_answer(blocks_text(message.content)))),
                    said: None,
                }
            } else {
                reading
            },
            None => reading,
        },
        Role::Tool => reading,
    }
}

/// How far the messages read.
pub open spec fn pair_reading(messages: Seq<MessageView>) -> PairReading
    decreases messages.len(),
{
    if messages.len() == 0 {
        PairReading { pairs: Seq::empty(), said: None }
    } else {
        read_pair(pair_reading(messages.drop_last()), messages.last())
    }
}

/// The pairs, one message after the other.
pub open spec fn flat<T>(pairs: Seq<(T, T)>) -> Seq<T>
    decreases pairs.len(),
{
    if pairs.len() == 0 {
        Seq::empty()
    } else {
        flat(pairs.drop_last()).push(pairs.last().0).push(pairs.last().1)
    }
}

/// What a list of messages holds.
pub open spec fn messages_view(messages: Seq<Message>) -> Seq<MessageView> {
    messages.map_values(|message: Message| message@)
}

/// What pairs of messages hold.
pub open spec fn message_pairs(pairs: Seq<(Message, Message)>) -> Seq<(MessageView, MessageView)> {
    pairs.map_values(|pair: (Message, Message)| (pair.0@, pair.1@))
}

/// What an optional message holds.
pub open spec fn option_message(message: Option<Message>) -> Option<MessageView> {
    match message {
        Some(message) => Some(message@),
        None => None,
    }
}

/// The last `keep_pairs` pairs of what the user said and what was answered, the
/// answers as plain text.
pub fn compact_history_heuristic(history: &[Message], keep_pairs: usize) -> (r: Vec<Message>)
    ensures
        messages_view(r@) == flat(
            last_of(pair_reading(messages_view(history@)).pairs, keep_pairs as nat),
        ),
{
    let ghost views = messages_view(history@);
    let mut pairs: Vec<(Message, Message)> = Vec::new();
    let mut said: Option<Message> = None;
    let mut i: usize = 0;
    assert(message_pairs(pairs@) =~= Seq::empty());
    while i < history.len()
        invariant
            views == messages_view(history@),
            i <= history@.len(),
            pair_reading(views.take(i as int)) == (PairReading {
                pairs: message_pairs(pairs@),
                said: option_message(said),
            }),
        decreases history@.len() - i,
    {
        proof {
            assert(views.take(i + 1).drop_last() =~= views.take(i as int));
            assert(views.take(i + 1).last() == history@[i as int]@);
        }
        let message = &history[i];
        match message.role {
            Role::User => {
                said = Some(message.clone());
            },
            Role::Assistant => {
                let text = message.text();
                if !text.as_str().is_empty() {
                    let mut user: Option<Message> = None;
                    std::mem::swap(&mut user, &mut said);
                    if let Some(user) = user {
                        let ghost before = pairs@;
                        let answer = Message::assistant(text.as_str());
                        pairs.push((user, answer));
                        assert(message_pairs(pairs@) =~= message_pairs(before).push(
                            (user@, answer@),
                        ));
                    }
                }
            },
            Role::Tool => {},
        }
        i += 1;
    }
    assert(views.take(history@.len() as int) =~= views);
    let ghost all = message_pairs(pairs@);
    let total: usize = pairs.len();
    let from: usize = if total <= keep_pairs {
        0
    } else {
        total - keep_pairs
    };
    let ghost kept = last_of(all, keep_pairs as nat);
    assert(kept =~= all.skip(from as int));
    let mut out: Vec<Message> = Vec::new();
    let mut k: usize = from;
    assert(messages_view(out@) =~= Seq::empty());
    while k < total
        invariant
            all == message_pairs(pairs@),
            kept == all.skip(from as int),
            from <= k <= total == pairs@.len(),
            messages_view(out@) == flat(kept.take(k - from)),
        decreases total - k,
    {
        proof {
            assert(kept.take(k - from + 1).drop_last() =~= kept.take(k - from));
            assert(kept.take(k - from + 1).last() == all[k as int]);
        }
        let ghost before = messages_view(out@);
        let user = pairs[k].0.clone();
        let answer = pairs[k].1.clone();
        out.push(user);
        out.push(answer);
        assert(messages_view(out@) =~= before.push(user@).push(answer@));
        k += 1;
    }
    assert(kept.take(total - from) =~= kept);
    out
}

/// What the user says, as it is kept in a conversation with a provider of kind
/// `kind`.
pub open spec fn raw_user(kind: ApiKind, blocks: Seq<BlockView>) -> JsonView {
    match kind {
        ApiKind::Anthropic => role_message("user"@, user_blocks_json(blocks)),
        _ => user_json(blocks),
    }
}

/// An answer that is nothing but text.
pub open spec fn only_text(text: Seq<char>) -> ResponseView {
    ResponseView {
        text,
        reasoning: Seq::empty(),
        calls: Seq::empty(),
        input_tokens: 0,
        output_tokens: 0,
        cache_hit_tokens: 0,
        cache_creation_tokens: 0,
        reasoning_tokens: 0,
    }
}

/// What the user said, as a message.
pub open spec fn text_said(text: Seq<char>) -> MessageView {
    MessageView { role: Role::User, content: seq![BlockView::Text { text }] }
}

/// The turns as messages: what the user said, and what the model answered.
pub open spec fn turn_history(turns: Seq<TurnView>) -> Seq<MessageView>
    decreases turns.len(),
{
    if turns.len() == 0 {
        Seq::empty()
    } else {
        let turn = turns.last();
        let before = turn_history(turns.drop_last()).push(text_said(turn.said));
        if turn.texts.len() > 0 {
            before.push(text_answer(answer_of(turn)))
        } else {
            before
        }
    }
}

/// The messages of a conversation that was kept as the provider takes it: what
/// was said and answered, turn by turn.
pub fn history_of(raw_context: &[Json]) -> (r: Vec<Message>)
    ensures
        messages_view(r@) == turn_history(turns_in(items_view(raw_context@))),
{
    let turns = extract_pairs(raw_context);
    let ghost views = turns_view(turns@);
    let mut history: Vec<Message> = Vec::new();
    let mut i: usize = 0;
    assert(messages_view(history@) =~= Seq::empty());
    while i < turns.len()
        invariant
            views == turns_view(turns@),
            i <= turns@.len(),
            messages_view(history@) == turn_history(views.take(i as int)),
        decreases turns@.len() - i,
    {
        let turn = &turns[i];
        proof {
            assert(views.take(i + 1).drop_last() =~= views.take(i as int));
            assert(views.take(i + 1).last() == turn@);
        }
        let ghost before = messages_view(history@);
        let said = Message::user(turn.said.as_str());
        history.push(said);
        assert(messages_view(history@) =~= before.push(said@));
        if turn.texts.len() > 0 {
            let answer = Message::assistant(join(turn.texts.as_slice(), "\n").as_str());
            history.push(answer);
            assert(messages_view(history@) =~= before.push(said@).push(answer@));
        }
        i += 1;
    }
    assert(views.take(turns@.len() as int) =~= views);
    history
}

/// A message as a provider of kind `kind` takes it, where it has text.
pub open spec fn cleaned(kind: ApiKind, message: JsonView) -> Option<JsonView> {
    let text = message_text(message);
    if text.len() == 0 {
        None
    } else if says(message, "role"@, "assistant"@) {
        Some(raw_answer(kind, only_text(text)))
    } else {
        Some(raw_user(kind, seq![BlockView::Text { text }]))
    }
}

/// A message as the provider takes it, where it has text.
pub fn format_cleaned_message(provider: &AnyProvider, message: &Json) -> (r: Option<Json>)
    ensures
        match r {
            Some(json) => cleaned(provider@.kind, message@) == Some(json@),
            None => cleaned(provider@.kind, message@) is None,
        },
{
    let text = extract_message_text(message);
    if text.as_str().is_empty() {
        return None;
    }
    if field_is(message, "role", "assistant") {
        let calls: Vec<(String, String, String)> = Vec::new();
        proof {
            assert(crate::types::call_views(calls@) =~= crate::agent_loop::response::call_triples(
                Seq::empty(),
            ));
            reveal_strlit("");
            assert(""@ =~= Seq::<char>::empty());
        }
        Some(provider.build_raw_assistant_message(text.as_str(), "", calls.as_slice()))
    } else {
        let mut blocks: Vec<ContentBlock> = Vec::new();
        blocks.push(ContentBlock::Text { text });
        assert(blocks_view(blocks@) =~= seq![BlockView::Text { text: text@ }]);
        Some(provider.format_user_message(blocks.as_slice()))
    }
}

/// A block with at most `cap` bytes of a tool's answer.
pub open spec fn capped_block(block: JsonView, cap: nat) -> JsonView {
    if says(block, "type"@, "tool_result"@) && block.text_field("content"@) is Some {
        with_field(
            block,
            "content"@,
            JsonView::Text(cut_text(block.text_field("content"@)->0, cap)),
        )
    } else {
        block
    }
}

/// A message with at most `cap` bytes of each tool's answer.
pub open spec fn capped(message: JsonView, cap: nat) -> JsonView {
    if cap == 0 {
        message
    } else if says(message, "role"@, "tool"@) {
        match message.text_field("content"@) {
            Some(text) => with_field(message, "content"@, JsonView::Text(cut_text(text, cap))),
            None => message,
        }
    } else if says(message, "role"@, "user"@) {
        match message.array_field("content"@) {
            Some(blocks) => with_field(
                message,
                "content"@,
                JsonView::Array(blocks.map_values(|block: JsonView| capped_block(block, cap))),
            ),
            None => message,
        }
    } else {
        message
    }
}

/// A block with at most `cap` bytes of a tool's answer.
fn cap_block(block: &Json, cap: usize) -> (r: Json)
    ensures
        r@ == capped_block(block@, cap as nat),
{
    if field_is(block, "type", "tool_result") {
        if let Some(content) = block.get_str("content") {
            let cut = truncate_text(content, cap);
            return block.clone().with("content", Json::Text(cut));
        }
    }
    block.clone()
}

/// A message with at most `cap` bytes of each tool's answer; with all of them
/// where `cap` is 0.
pub fn cap_tool_result_content(message: &Json, cap: usize) -> (r: Json)
    ensures
        r@ == capped(message@, cap as nat),
{
    if cap == 0 {
        return message.clone();
    }
    if field_is(message, "role", "tool") {
        if let Some(content) = message.get_str("content") {
            let cut = truncate_text(content, cap);
            return message.clone().with("content", Json::Text(cut));
        }
        return message.clone();
    }
    if field_is(message, "role", "user") {
        if let Some(blocks) = message.get_array("content") {
            let ghost views = items_view(blocks@);
            let mut out: Vec<Json> = Vec::new();
            let mut i: usize = 0;
            while i < blocks.len()
                invariant
                    views == items_view(blocks@),
                    i <= blocks@.len(),
                    out@.len() == i,
                    forall|k: int|
                        0 <= k < i ==> #[trigger] out@[k]@ == capped_block(views[k], cap as nat),
                decreases blocks@.len() - i,
            {
                assert(views[i as int] == blocks@[i as int]@);
                out.push(cap_block(&blocks[i], cap));
                i += 1;
            }
            proof {
                crate::json::lemma_array_view(out);
                assert(items_view(out@) =~= views.map_values(
                    |block: JsonView| capped_block(block, cap as nat),
                ));
            }
            return message.clone().with("content", Json::Array(out));
        }
    }
    message.clone()
}

/// The messages, each as the provider takes it, as far as they have text.
pub open spec fn all_cleaned(kind: ApiKind, messages: Seq<JsonView>) -> Seq<JsonView>
    decreases messages.len(),
{
    if messages.len() == 0 {
        Seq::empty()
    } else {
        let before = all_cleaned(kind, messages.drop_last());
        match cleaned(kind, messages.last()) {
            Some(message) => before.push(message),
            None => before,
        }
    }
}

/// The messages that are no notes, with at most `cap` bytes of each tool's
/// answer.
pub open spec fn without_notes(messages: Seq<JsonView>, cap: nat) -> Seq<JsonView>
    decreases messages.len(),
{
    if messages.len() == 0 {
        Seq::empty()
    } else {
        let before = without_notes(messages.drop_last(), cap);
        if is_note(messages.last()) {
            before
        } else {
            before.push(capped(messages.last(), cap))
        }
    }
}

/// The messages, with at most `cap` bytes of each tool's answer.
pub open spec fn all_capped(messages: Seq<JsonView>, cap: nat) -> Seq<JsonView> {
    messages.map_values(|message: JsonView| capped(message, cap))
}

/// What is sent of the turns before: the oldest of them as plain text, the
/// latest as they are.
#[verifier::ext_equal]
pub struct SentPrior {
    /// As plain text.
    pub compacted: Seq<JsonView>,
    /// As they are.
    pub verbatim: Seq<JsonView>,
}

/// How many bytes of a tool's answer are sent, 0 standing for all.
pub open spec fn cap_of(strategy: ContextStrategyConfig) -> nat {
    match strategy.tool_result_cap {
        Some(cap) => cap as nat,
        None => 0,
    }
}

/// How many turns are sent as they are.
pub open spec fn verbatim_turns(strategy: ContextStrategyConfig) -> nat {
    match strategy.note_window {
        Some(n) => n as nat,
        None => usize::MAX as nat,
    }
}

/// What is sent of the turns before.
pub open spec fn sent_prior(
    kind: ApiKind,
    prior: Seq<JsonView>,
    strategy: ContextStrategyConfig,
) -> SentPrior {
    let start = last_turns_start(prior, prior.len() as int, verbatim_turns(strategy));
    let pairs = turns_in(prior.skip(start)).len();
    let keep = if pairs <= strategy.window {
        (strategy.window - pairs) as nat
    } else {
        0
    };
    SentPrior {
        compacted: all_cleaned(kind, cut_down(prior.take(start), keep, Some(0))),
        verbatim: without_notes(prior.skip(start), cap_of(strategy)),
    }
}

/// Where the current turn begins.
pub open spec fn boundary(raw: Seq<JsonView>, prior_len: nat) -> int {
    if prior_len < raw.len() {
        prior_len as int
    } else {
        raw.len() as int
    }
}

/// What is sent of a conversation whose first `prior_len` messages are those of
/// the turns before.
pub open spec fn sent(
    kind: ApiKind,
    raw: Seq<JsonView>,
    prior_len: nat,
    strategy: ContextStrategyConfig,
) -> Seq<JsonView> {
    match strategy.mode {
        ContextStrategy::Full => raw,
        ContextStrategy::SlidingWindow => {
            let prior = sent_prior(kind, raw.take(boundary(raw, prior_len)), strategy);
            prior.compacted + prior.verbatim + all_capped(
                raw.skip(boundary(raw, prior_len)),
                cap_of(strategy),
            )
        },
    }
}

/// `n` times the same.
pub open spec fn repeated(label: u8, n: nat) -> Seq<u8> {
    Seq::new(n, |i: int| label)
}

/// Where each message that is sent comes from: 1 for all of a conversation that
/// is sent in full and for what is sent as plain text, 2 for the earlier turns
/// and 3 for the current turn, both as they are.
pub open spec fn sent_regions(
    kind: ApiKind,
    raw: Seq<JsonView>,
    prior_len: nat,
    strategy: ContextStrategyConfig,
) -> Seq<u8> {
    match strategy.mode {
        ContextStrategy::Full => repeated(1, raw.len()),
        ContextStrategy::SlidingWindow => {
            let prior = sent_prior(kind, raw.take(boundary(raw, prior_len)), strategy);
            repeated(1, prior.compacted.len()) + repeated(2, prior.verbatim.len()) + repeated(
                3,
                raw.skip(boundary(raw, prior_len)).len(),
            )
        },
    }
}

/// `n` times the same, added to a list.
fn push_labels(regions: &mut Vec<u8>, label: u8, n: usize)
    ensures
        final(regions)@ == old(regions)@ + repeated(label, n as nat),
{
    let ghost before = regions@;
    let mut i: usize = 0;
    assert(before + repeated(label, 0) =~= before);
    while i < n
        invariant
            i <= n,
            regions@ == before + repeated(label, i as nat),
        decreases n - i,
    {
        regions.push(label);
        i += 1;
        assert(regions@ =~= before + repeated(label, i as nat));
    }
}

/// What a provider takes of the compacted messages.
fn clean_all(provider: &AnyProvider, messages: &[Json]) -> (r: Vec<Json>)
    ensures
        items_view(r@) == all_cleaned(provider@.kind, items_view(messages@)),
{
    let ghost views = items_view(messages@);
    let mut out: Vec<Json> = Vec::new();
    let mut i: usize = 0;
    assert(items_view(out@) =~= Seq::empty());
    while i < messages.len()
        invariant
            views == items_view(messages@),
            i <= messages@.len(),
            items_view(out@) == all_cleaned(provider@.kind, views.take(i as int)),
        decreases messages@.len() - i,
    {
        proof {
            assert(views.take(i + 1).drop_last() =~= views.take(i as int));
            assert(views.take(i + 1).last() == messages@[i as int]@);
        }
        let ghost before = items_view(out@);
        if let Some(message) = format_cleaned_message(provider, &messages[i]) {
            out.push(message);
            assert(items_view(out@) =~= before.push(message@));
        }
        i += 1;
    }
    assert(views.take(messages@.len() as int) =~= views);
    out
}

/// The messages that are no notes, with at most `cap` bytes of each tool's
/// answer, added to a list.
fn push_without_notes(out: &mut Vec<Json>, messages: &[Json], cap: usize)
    ensures
        items_view(final(out)@) == items_view(old(out)@) + without_notes(
            items_view(messages@),
            cap as nat,
        ),
{
    let ghost views = items_view(messages@);
    let ghost start = items_view(out@);
    let mut i: usize = 0;
    assert(start + without_notes(views.take(0), cap as nat) =~= start);
    while i < messages.len()
        invariant
            views == items_view(messages@),
            i <= messages@.len(),
            items_view(out@) == start + without_notes(views.take(i as int), cap as nat),
        decreases messages@.len() - i,
    {
        proof {
            assert(views.take(i + 1).drop_last() =~= views.take(i as int));
            assert(views.take(i + 1).last() == messages@[i as int]@);
        }
        let ghost before = items_view(out@);
        if !is_history_note(&messages[i]) {
            let message = cap_tool_result_content(&messages[i], cap);
            out.push(message);
            assert(items_view(out@) =~= before.push(message@));
            assert(items_view(out@) =~= start + without_notes(views.take(i + 1), cap as nat));
        }
        i += 1;
    }
    assert(views.take(messages@.len() as int) =~= views);
}

/// The messages, with at most `cap` bytes of each tool's answer, added to a
/// list.
fn push_capped(out: &mut Vec<Json>, messages: &[Json], cap: usize)
    ensures
        items_view(final(out)@) == items_view(old(out)@) + all_capped(
            items_view(messages@),
            cap as nat,
        ),
{
    let ghost views = items_view(messages@);
    let ghost start = items_view(out@);
    let mut i: usize = 0;
    assert(start + all_capped(views.take(0), cap as nat) =~= start);
    while i < messages.len()
        invariant
            views == items_view(messages@),
            i <= messages@.len(),
            items_view(out@) == start + all_capped(views.take(i as int), cap as nat),
        decreases messages@.len() - i,
    {
        assert(views[i as int] == messages@[i as int]@);
        let ghost before = items_view(out@);
        let message = cap_tool_result_content(&messages[i], cap);
        out.push(message);
        assert(items_view(out@) =~= before.push(message@));
        assert(items_view(out@) =~= start + all_capped(views.take(i + 1), cap as nat));
        i += 1;
    }
    assert(views.take(messages@.len() as int) =~= views);
}

/// What is sent of a conversation whose first `prior_len` messages are those of
/// the turns before, and where each message comes from.
pub fn build_send_context_with_regions(
    provider: &AnyProvider,
    raw_context: &[Json],
    prior_len: usize,
    strategy: &ContextStrategyConfig,
) -> (r: (Vec<Json>, Vec<u8>))
    ensures
        items_view(r.0@) == sent(
            provider@.kind,
            items_view(raw_context@),
            prior_len as nat,
            *strategy,
        ),
        r.1@ == sent_regions(
            provider@.kind,
            items_view(raw_context@),
            prior_len as nat,
            *strategy,
        ),
{
    let ghost raw = items_view(raw_context@);
    let total: usize = raw_context.len();
    let mut regions: Vec<u8> = Vec::new();
    match strategy.mode {
        ContextStrategy::Full => {
            let mut out: Vec<Json> = Vec::new();
            push_capped(&mut out, raw_context, 0);
            assert(items_view(out@) =~= raw);
            push_labels(&mut regions, 1, total);
            assert(regions@ =~= repeated(1, raw.len()));
            (out, regions)
        },
        ContextStrategy::SlidingWindow => {
            let at: usize = if prior_len < total {
                prior_len
            } else {
                total
            };
            let (prior, current) = raw_context.split_at(at);
            let ghost before = raw.take(at as int);
            proof {
                assert(items_view(prior@) =~= before);
                assert(items_view(current@) =~= raw.skip(at as int));
            }
            let cap: usize = match strategy.tool_result_cap {
                Some(cap) => cap,
                None => 0,
            };
            let turns: usize = match strategy.note_window {
                Some(n) => n,
                None => usize::MAX,
            };
            let start: usize = verbatim_start_index(prior, turns);
            let (older, recent) = prior.split_at(start);
            proof {
                assert(items_view(older@) =~= before.take(start as int));
                assert(items_view(recent@) =~= before.skip(start as int));
            }
            let recent_pairs = extract_pairs(recent);
            let pairs: usize = recent_pairs.len();
            proof {
                assert(crate::session::turns_view(recent_pairs@).len() == pairs);
            }
            let keep: usize = if pairs <= strategy.window {
                strategy.window - pairs
            } else {
                0
            };
            let compacted = extract_user_assistant_pairs(older, keep, Some(0));
            let mut out = clean_all(provider, compacted.as_slice());
            let ghost first = items_view(out@);
            let n1: usize = out.len();
            push_labels(&mut regions, 1, n1);
            push_without_notes(&mut out, recent, cap);
            let n2: usize = out.len();
            assert(items_view(out@).len() == n2 && first.len() == n1);
            push_labels(&mut regions, 2, n2 - n1);
            push_capped(&mut out, current, cap);
            let n3: usize = out.len();
            assert(items_view(out@).len() == n3);
            push_labels(&mut regions, 3, n3 - n2);
            proof {
                let prior_sent = sent_prior(provider@.kind, before, *strategy);
                assert(first == prior_sent.compacted);
                assert(n1 == prior_sent.compacted.len());
                assert(n2 - n1 == prior_sent.verbatim.len());
                assert(n3 - n2 == current@.len());
                assert(items_view(out@) =~= sent(
                    provider@.kind,
                    raw,
                    prior_len as nat,
                    *strategy,
                ));
                assert(regions@ =~= sent_regions(
                    provider@.kind,
                    raw,
                    prior_len as nat,
                    *strategy,
                ));
            }
            (out, regions)
        },
    }
}

/// Each message that is sent has its label.
pub proof fn law_every_message_is_labelled(
    kind: ApiKind,
    raw: Seq<JsonView>,
    prior_len: nat,
    strategy: ContextStrategyConfig,
)
    ensures
        sent_regions(kind, raw, prior_len, strategy).len() == sent(
            kind,
            raw,
            prior_len,
            strategy,
        ).len(),
{
}

/// The current turn is sent last, message by message, and where no cap is set
/// as it is.
pub proof fn law_current_turn_is_sent(
    kind: ApiKind,
    raw: Seq<JsonView>,
    prior_len: nat,
    strategy: ContextStrategyConfig,
)
    ensures
        ({
            let all = sent(kind, raw, prior_len, strategy);
            let current = raw.skip(boundary(raw, prior_len));
            &&& all.len() >= current.len()
            &&& strategy.mode == ContextStrategy::SlidingWindow ==> last_of(all, current.len())
                == all_capped(current, cap_of(strategy))
            &&& (strategy.mode == ContextStrategy::Full || cap_of(strategy) == 0) ==> last_of(
                all,
                current.len(),
            ) == current
        }),
{
    let all = sent(kind, raw, prior_len, strategy);
    let current = raw.skip(boundary(raw, prior_len));
    if strategy.mode == ContextStrategy::SlidingWindow {
        assert(last_of(all, current.len()) =~= all_capped(current, cap_of(strategy)));
        if cap_of(strategy) == 0 {
            assert(all_capped(current, 0) =~= current);
        }
    } else {
        assert(last_of(all, current.len()) =~= current);
    }
}

/// A cap of 0 is no cap.
pub proof fn law_cap_zero_is_no_cap(
    kind: ApiKind,
    raw: Seq<JsonView>,
    prior_len: nat,
    strategy: ContextStrategyConfig,
)
    ensures
        sent(
            kind,
            raw,
            prior_len,
            ContextStrategyConfig { tool_result_cap: Some(0), ..strategy },
        ) == sent(
            kind,
            raw,
            prior_len,
            ContextStrategyConfig { tool_result_cap: None, ..strategy },
        ),
{
    assert(cap_of(ContextStrategyConfig { tool_result_cap: Some(0), ..strategy }) == cap_of(
        ContextStrategyConfig { tool_result_cap: None, ..strategy },
    ));
    assert(sent_prior(
        kind,
        raw.take(boundary(raw, prior_len)),
        ContextStrategyConfig { tool_result_cap: Some(0), ..strategy },
    ) == sent_prior(
        kind,
        raw.take(boundary(raw, prior_len)),
        ContextStrategyConfig { tool_result_cap: None, ..strategy },
    ));
}

/// Whether the message is one of plain text, and has some.
pub open spec fn has_own_text(kind: ApiKind, message: JsonView) -> bool {
    exists|text: Seq<char>|
        text.len() > 0 && (message == #[trigger] raw_answer(kind, only_text(text)) || message
            == raw_user(kind, seq![BlockView::Text { text }]))
}

/// What is sent as plain text is never empty.
pub proof fn law_no_empty_text_is_sent(kind: ApiKind, messages: Seq<JsonView>, i: int)
    requires
        0 <= i < all_cleaned(kind, messages).len(),
    ensures
        has_own_text(kind, all_cleaned(kind, messages)[i]),
    decreases messages.len(),
{
    if messages.len() > 0 {
        let before = all_cleaned(kind, messages.drop_last());
        if i < before.len() {
            law_no_empty_text_is_sent(kind, messages.drop_last(), i);
        } else {
            let text = message_text(messages.last());
            let _ = raw_answer(kind, only_text(text));
        }
    }
}

proof fn lemma_capped_texts(blocks: Seq<JsonView>, cap: nat)
    ensures
        crate::session::block_texts(
            blocks.map_values(|block: JsonView| capped_block(block, cap)),
        ) == crate::session::block_texts(blocks),
    decreases blocks.len(),
{
    let after = blocks.map_values(|block: JsonView| capped_block(block, cap));
    if blocks.len() > 0 {
        reveal_strlit("type");
        reveal_strlit("text");
        reveal_strlit("content");
        reveal_strlit("tool_result");
        assert(after.drop_last() =~= blocks.drop_last().map_values(
            |block: JsonView| capped_block(block, cap),
        ));
        lemma_capped_texts(blocks.drop_last(), cap);
        assert("text"@.len() != "tool_result"@.len());
        assert("type"@.len() != "content"@.len());
        assert("text"@.len() != "content"@.len());
    }
}

/// The cap changes no role, and of what the user said it changes nothing.
pub proof fn law_cap_keeps_what_was_said(message: JsonView, cap: nat)
    ensures
        capped(message, cap).field("role"@) == message.field("role"@),
        says(message, "role"@, "user"@) ==> message_text(capped(message, cap)) == message_text(
            message,
        ),
        is_note(capped(message, cap)) == is_note(message),
{
    reveal_strlit("role");
    reveal_strlit("content");
    reveal_strlit("user");
    reveal_strlit("tool");
    assert("role"@.len() != "content"@.len());
    assert("user"@[0] != "tool"@[0]);
    if says(message, "role"@, "user"@) {
        if let Some(blocks) = message.array_field("content"@) {
            lemma_capped_texts(blocks, cap);
        }
    }
}

/// No note is sent among the turns that are sent as they are.
pub proof fn law_no_note_is_sent(messages: Seq<JsonView>, cap: nat, i: int)
    requires
        0 <= i < without_notes(messages, cap).len(),
    ensures
        !is_note(without_notes(messages, cap)[i]),
    decreases messages.len(),
{
    if messages.len() > 0 {
        let before = without_notes(messages.drop_last(), cap);
        if i < before.len() {
            law_no_note_is_sent(messages.drop_last(), cap, i);
        } else {
            law_cap_keeps_what_was_said(messages.last(), cap);
        }
    }
}

/// In full mode the conversation is sent as it is, whatever else is set.
pub proof fn law_full_mode_sends_all(
    kind: ApiKind,
    raw: Seq<JsonView>,
    prior_len: nat,
    strategy: ContextStrategyConfig,
)
    requires
        strategy.mode == ContextStrategy::Full,
    ensures
        sent(kind, raw, prior_len, strategy) == raw,
        forall|i: int|
            0 <= i < raw.len() ==> #[trigger] sent_regions(kind, raw, prior_len, strategy)[i] == 1,
{
}

/// Whether the pair is one of what the user said and a plain answer to it.
pub open spec fn is_exchange(pair: (MessageView, MessageView)) -> bool {
    pair.0.role == Role::User && exists|text: Seq<char>|
        text.len() > 0 && pair.1 == #[trigger] text_answer(text)
}

proof fn lemma_reading_is_of_exchanges(messages: Seq<MessageView>)
    ensures
        ({
            let reading = pair_reading(messages);
            &&& forall|i: int|
                0 <= i < reading.pairs.len() ==> is_exchange(#[trigger] reading.pairs[i])
            &&& reading.said matches Some(said) ==> said.role == Role::User
        }),
    decreases messages.len(),
{
    if messages.len() > 0 {
        lemma_reading_is_of_exchanges(messages.drop_last());
        let before = pair_reading(messages.drop_last());
        let after = pair_reading(messages);
        assert forall|i: int| 0 <= i < after.pairs.len() implies is_exchange(
            #[trigger] after.pairs[i],
        ) by {
            if i < before.pairs.len() {
                assert(after.pairs[i] == before.pairs[i]);
            } else {
                assert(after.pairs[i].1 == text_answer(blocks_text(messages.last().content)));
            }
        }
    }
}

proof fn lemma_exchanges_read_back(pairs: Seq<(MessageView, MessageView)>)
    requires
        forall|i: int| 0 <= i < pairs.len() ==> is_exchange(#[trigger] pairs[i]),
    ensures
        pair_reading(flat(pairs)) == (PairReading { pairs, said: None }),
        flat(pairs).len() == 2 * pairs.len(),
    decreases pairs.len(),
{
    if pairs.len() > 0 {
        let before = flat(pairs.drop_last());
        let last = pairs.last();
        lemma_exchanges_read_back(pairs.drop_last());
        assert(is_exchange(pairs[pairs.len() - 1]));
        let text = choose|text: Seq<char>| text.len() > 0 && last.1 == #[trigger] text_answer(text);
        let block = BlockView::Text { text };
        assert(seq![block].drop_last() =~= Seq::<BlockView>::empty());
        reveal_with_fuel(blocks_text, 2);
        assert(blocks_text(seq![block]) =~= text);
        let all = flat(pairs);
        assert(all.drop_last() =~= before.push(last.0));
        assert(all.drop_last().drop_last() =~= before);
        assert(pair_reading(before.push(last.0)) == read_pair(pair_reading(before), last.0));
        assert(pair_reading(all).pairs =~= pairs.drop_last().push(last));
        assert(pairs.drop_last().push(last) =~= pairs);
    } else {
        assert(pair_reading(flat(pairs)).pairs =~= pairs);
    }
}

/// A history that was cut down to its last `keep` pairs holds no more than
/// these, and cutting it down again changes nothing.
pub proof fn law_compaction_is_final(history: Seq<MessageView>, keep: nat)
    ensures
        ({
            let kept = flat(last_of(pair_reading(history).pairs, keep));
            &&& kept.len() <= 2 * keep
            &&& flat(last_of(pair_reading(kept).pairs, keep)) == kept
        }),
{
    lemma_reading_is_of_exchanges(history);
    let all = pair_reading(history).pairs;
    let pairs = last_of(all, keep);
    assert forall|i: int| 0 <= i < pairs.len() implies is_exchange(#[trigger] pairs[i]) by {
        if all.len() > keep {
            assert(pairs[i] == all[i + all.len() - keep]);
        }
    }
    lemma_exchanges_read_back(pairs);
}

proof fn lemma_flat_suffix<T>(pairs: Seq<(T, T)>, k: int)
    requires
        0 <= k <= pairs.len(),
    ensures
        flat(pairs).len() == 2 * pairs.len(),
        flat(pairs).skip(2 * k) == flat(pairs.skip(k)),
    decreases pairs.len(),
{
    if pairs.len() > 0 {
        let rest = pairs.drop_last();
        if k < pairs.len() {
            lemma_flat_suffix(rest, k);
            assert(pairs.skip(k).drop_last() =~= rest.skip(k));
            assert(pairs.skip(k).last() == pairs.last());
            assert(flat(pairs).skip(2 * k) =~= flat(rest).skip(2 * k).push(pairs.last().0).push(
                pairs.last().1,
            ));
        } else {
            lemma_flat_suffix(rest, rest.len() as int);
            assert(pairs.skip(k) =~= Seq::empty());
            assert(flat(pairs).skip(2 * k) =~= flat(pairs.skip(k)));
        }
    } else {
        assert(pairs.skip(k) =~= pairs);
        assert(flat(pairs).skip(2 * k) =~= flat(pairs));
    }
}

/// Of fewer pairs the end of what is kept of more is kept, and of no pairs
/// nothing.
pub proof fn law_fewer_pairs_are_a_suffix(history: Seq<MessageView>, fewer: nat, more: nat)
    requires
        fewer <= more,
    ensures
        ({
            let all = pair_reading(history).pairs;
            let longer = flat(last_of(all, more));
            let shorter = flat(last_of(all, fewer));
            &&& shorter.len() <= longer.len()
            &&& shorter == longer.skip(longer.len() - shorter.len())
            &&& flat(last_of(all, 0)).len() == 0
        }),
{
    let all = pair_reading(history).pairs;
    let long_pairs = last_of(all, more);
    let short_pairs = last_of(all, fewer);
    let k = long_pairs.len() - short_pairs.len();
    lemma_flat_suffix(long_pairs, k);
    lemma_flat_suffix(short_pairs, 0);
    lemma_flat_suffix(last_of(all, 0), 0);
    assert(long_pairs.skip(k) =~= short_pairs);
}

} // verus!
