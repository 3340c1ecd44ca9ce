//! The messages of a conversation in the form in which they are sent, and
//! which of them can be sent again.
//!
//! Two forms are known. In OpenAI's form a message has a string as its content
//! and its tool calls beside it; a tool's answer is a message of the role
//! `tool`. In Anthropic's form the content is an array of blocks, tool calls
//! and answers among them.
use crate::json::{Json, JsonView, items_view};
use crate::text::{same, texts};
use vstd::prelude::*;
use vstd::string::*;

verus! {

/// Whether the string field `name` of `json` is `value`.
pub open spec fn says(json: JsonView, name: Seq<char>, value: Seq<char>) -> bool {
    json.text_field(name) == Some(value)
}

/// Whether the field `name` of `json` is `true`.
pub open spec fn says_yes(json: JsonView, name: Seq<char>) -> bool {
    match json.field(name) {
        Some(value) => value.boolean() == Some(true),
        None => false,
    }
}

/// Whether the field `name` of `json` is `false`.
pub open spec fn says_no(json: JsonView, name: Seq<char>) -> bool {
    match json.field(name) {
        Some(value) => value.boolean() == Some(false),
        None => false,
    }
}

/// Whether the field `name` of `json` is a string that is not empty.
pub open spec fn has_text(json: JsonView, name: Seq<char>) -> bool {
    match json.text_field(name) {
        Some(s) => s.len() > 0,
        None => false,
    }
}

/// The blocks of a message: none where its content is no array.
pub open spec fn blocks_of(message: JsonView) -> Seq<JsonView> {
    match message.array_field("content"@) {
        Some(blocks) => blocks,
        None => Seq::empty(),
    }
}

/// The tool calls beside the content of a message.
pub open spec fn calls_of(message: JsonView) -> Seq<JsonView> {
    match message.array_field("tool_calls"@) {
        Some(calls) => calls,
        None => Seq::empty(),
    }
}

/// Whether a block says something: a tool call, or text that is not empty.
pub open spec fn is_meaningful(block: JsonView) -> bool {
    says(block, "type"@, "tool_use"@) || (says(block, "type"@, "text"@) && has_text(block, "text"@))
}

/// Whether a message can be sent again. One of the model's must say something
/// or call a tool.
pub open spec fn is_sendable(message: JsonView) -> bool {
    ||| !says(message, "role"@, "assistant"@)
    ||| has_text(message, "content"@)
    ||| exists|i: int| 0 <= i < blocks_of(message).len() && is_meaningful(#[trigger] blocks_of(message)[i])
    ||| calls_of(message).len() > 0
}

/// The messages that can be sent again.
pub open spec fn sendable(messages: Seq<JsonView>) -> Seq<JsonView> {
    messages.filter(|message: JsonView| is_sendable(message))
}

/// The ids of the tool calls in a list: of all of them, or of those blocks
/// that are tool calls.
pub open spec fn ids_in(items: Seq<JsonView>, only_tool_use: bool) -> Seq<Seq<char>>
    decreases items.len(),
{
    if items.len() == 0 {
        Seq::empty()
    } else {
        let before = ids_in(items.drop_last(), only_tool_use);
        match items.last().text_field("id"@) {
            Some(id) => if !only_tool_use || says(items.last(), "type"@, "tool_use"@) {
                before.push(id)
            } else {
                before
            },
            None => before,
        }
    }
}

/// The ids of the tool calls of a message, in either form.
pub open spec fn call_ids(message: JsonView) -> Seq<Seq<char>> {
    ids_in(calls_of(message), false) + ids_in(blocks_of(message), true)
}

/// Whether a block answers the tool call `id`.
pub open spec fn block_answers(block: JsonView, id: Seq<char>) -> bool {
    says(block, "type"@, "tool_result"@) && says(block, "tool_use_id"@, id)
}

/// Whether a message answers the tool call `id`, in either form.
pub open spec fn answers(message: JsonView, id: Seq<char>) -> bool {
    ||| says(message, "role"@, "tool"@) && says(message, "tool_call_id"@, id)
    ||| says(message, "role"@, "user"@) && exists|i: int|
        0 <= i < blocks_of(message).len() && block_answers(#[trigger] blocks_of(message)[i], id)
}

/// Whether a message after position `i` answers the tool call `id`.
pub open spec fn answered_after(messages: Seq<JsonView>, i: int, id: Seq<char>) -> bool {
    exists|j: int| i < j < messages.len() && answers(#[trigger] messages[j], id)
}

/// Whether the message at position `i` calls a tool that no later message
/// answers.
pub open spec fn is_dangling(messages: Seq<JsonView>, i: int) -> bool {
    says(messages[i], "role"@, "assistant"@) && exists|k: int|
        0 <= k < call_ids(messages[i]).len() && !answered_after(
            messages,
            i,
            #[trigger] call_ids(messages[i])[k],
        )
}

/// The position of the first dangling message from `i` on; the number of
/// messages where there is none.
pub open spec fn first_dangling(messages: Seq<JsonView>, i: int) -> int
    decreases messages.len() - i,
{
    if i >= messages.len() {
        messages.len() as int
    } else if is_dangling(messages, i) {
        i
    } else {
        first_dangling(messages, i + 1)
    }
}

/// The messages before the first dangling one.
pub open spec fn repaired(messages: Seq<JsonView>) -> Seq<JsonView> {
    messages.take(first_dangling(messages, 0))
}

/// Whether the field `name` of `json` is `true`.
pub fn is_yes(json: &Json, name: &str) -> (r: bool)
    ensures
        r == says_yes(json@, name@),
{
    match json.get(name) {
        Some(value) => match value.as_bool() {
            Some(b) => b,
            None => false,
        },
        None => false,
    }
}

/// Whether the field `name` of `json` is `false`.
pub fn is_no(json: &Json, name: &str) -> (r: bool)
    ensures
        r == says_no(json@, name@),
{
    match json.get(name) {
        Some(value) => match value.as_bool() {
            Some(b) => !b,
            None => false,
        },
        None => false,
    }
}

/// Whether the string field `name` of `json` is `value`.
pub fn field_is(json: &Json, name: &str, value: &str) -> (r: bool)
    ensures
        r == says(json@, name@, value@),
{
    match json.get_str(name) {
        Some(s) => same(s, value),
        None => false,
    }
}

/// Whether the field `name` of `json` is a string that is not empty.
pub fn field_has_text(json: &Json, name: &str) -> (r: bool)
    ensures
        r == has_text(json@, name@),
{
    match json.get_str(name) {
        Some(s) => !s.is_empty(),
        None => false,
    }
}

/// Whether a message can be sent again.
fn can_send(message: &Json) -> (r: bool)
    ensures
        r == is_sendable(message@),
{
    if !field_is(message, "role", "assistant") || field_has_text(message, "content") {
        return true;
    }
    if let Some(calls) = message.get_array("tool_calls") {
        if calls.len() > 0 {
            return true;
        }
    }
    if let Some(blocks) = message.get_array("content") {
        let mut i: usize = 0;
        while i < blocks.len()
            invariant
                blocks_of(message@) == items_view(blocks@),
                i <= blocks@.len(),
                forall|j: int| 0 <= j < i ==> !is_meaningful(#[trigger] blocks_of(message@)[j]),
            decreases blocks@.len() - i,
        {
            assert(blocks_of(message@)[i as int] == blocks@[i as int]@);
            if field_is(&blocks[i], "type", "tool_use") || (field_is(&blocks[i], "type", "text")
                && field_has_text(&blocks[i], "text")) {
                return true;
            }
            i += 1;
        }
    }
    false
}

/// Appends the ids of the tool calls in a list.
fn collect_ids(items: &Vec<Json>, only_tool_use: bool, ids: &mut Vec<String>)
    ensures
        texts(final(ids)@) == texts(old(ids)@) + ids_in(items_view(items@), only_tool_use),
{
    let ghost start = texts(ids@);
    let ghost views = items_view(items@);
    let mut i: usize = 0;
    assert(start + Seq::<Seq<char>>::empty() =~= start);
    while i < items.len()
        invariant
            views == items_view(items@),
            i <= items@.len(),
            texts(ids@) == start + ids_in(views.take(i as int), only_tool_use),
        decreases items@.len() - i,
    {
        let ghost before = texts(ids@);
        proof {
            assert(views.take(i + 1).drop_last() =~= views.take(i as int));
            assert(views.take(i + 1).last() == items@[i as int]@);
        }
        if let Some(id) = items[i].get_str("id") {
            if !only_tool_use || field_is(&items[i], "type", "tool_use") {
                ids.push(id.to_owned());
                assert(texts(ids@) =~= before.push(id@));
                assert(before.push(id@) =~= start + ids_in(views.take(i as int), only_tool_use).push(
                    id@,
                ));
            }
        }
        i += 1;
    }
    assert(views.take(items@.len() as int) =~= views);
}

/// The ids of the tool calls of a message.
pub fn extract_tool_call_ids(message: &Json) -> (r: Vec<String>)
    ensures
        texts(r@) == call_ids(message@),
{
    let mut ids: Vec<String> = Vec::new();
    assert(texts(ids@) =~= Seq::<Seq<char>>::empty());
    if let Some(calls) = message.get_array("tool_calls") {
        collect_ids(calls, false, &mut ids);
    }
    assert(texts(ids@) =~= ids_in(calls_of(message@), false));
    let ghost before = texts(ids@);
    if let Some(blocks) = message.get_array("content") {
        collect_ids(blocks, true, &mut ids);
    }
    assert(texts(ids@) =~= before + ids_in(blocks_of(message@), true));
    ids
}

/// Whether a message answers the tool call `id`.
fn message_answers(message: &Json, id: &str) -> (r: bool)
    ensures
        r == answers(message@, id@),
{
    if field_is(message, "role", "tool") && field_is(message, "tool_call_id", id) {
        return true;
    }
    if field_is(message, "role", "user") {
        if let Some(blocks) = message.get_array("content") {
            let mut i: usize = 0;
            while i < blocks.len()
                invariant
                    blocks_of(message@) == items_view(blocks@),
                    says(message@, "role"@, "user"@),
                    i <= blocks@.len(),
                    forall|j: int| 0 <= j < i ==> !block_answers(#[trigger] blocks_of(message@)[j], id@),
                decreases blocks@.len() - i,
            {
                assert(blocks_of(message@)[i as int] == blocks@[i as int]@);
                if field_is(&blocks[i], "type", "tool_result") && field_is(
                    &blocks[i],
                    "tool_use_id",
                    id,
                ) {
                    return true;
                }
                i += 1;
            }
        }
    }
    false
}

/// Whether a message after position `i` answers the tool call `id`.
fn is_answered(messages: &Vec<Json>, i: usize, id: &str) -> (r: bool)
    requires
        i < messages@.len(),
    ensures
        r == answered_after(items_view(messages@), i as int, id@),
{
    let ghost views = items_view(messages@);
    let n: usize = messages.len();
    let mut j: usize = i + 1;
    while j < n
        invariant
            n == messages@.len(),
            views == items_view(messages@),
            i < j <= messages@.len(),
            forall|k: int| i < k < j ==> !answers(#[trigger] views[k], id@),
        decreases messages@.len() - j,
    {
        assert(views[j as int] == messages@[j as int]@);
        if message_answers(&messages[j], id) {
            return true;
        }
        j += 1;
    }
    false
}

/// Whether the message at position `i` calls a tool that no later message
/// answers.
fn dangles(messages: &Vec<Json>, i: usize) -> (r: bool)
    requires
        i < messages@.len(),
    ensures
        r == is_dangling(items_view(messages@), i as int),
{
    let ghost views = items_view(messages@);
    assert(views[i as int] == messages@[i as int]@);
    if !field_is(&messages[i], "role", "assistant") {
        return false;
    }
    let ids = extract_tool_call_ids(&messages[i]);
    let mut k: usize = 0;
    while k < ids.len()
        invariant
            i < messages@.len(),
            views == items_view(messages@),
            says(views[i as int], "role"@, "assistant"@),
            texts(ids@) == call_ids(views[i as int]),
            k <= ids@.len(),
            forall|m: int|
                0 <= m < k ==> answered_after(views, i as int, #[trigger] call_ids(views[i as int])[m]),
        decreases ids@.len() - k,
    {
        assert(call_ids(views[i as int])[k as int] == ids@[k as int]@);
        if !is_answered(messages, i, ids[k].as_str()) {
            return true;
        }
        k += 1;
    }
    false
}

/// Drops the first message whose tool calls are not all answered, and every
/// message after it: providers reject a call without an answer, and what
/// follows may depend on it.
pub fn repair_dangling_tool_calls(messages: Vec<Json>) -> (r: Vec<Json>)
    ensures
        items_view(r@) == repaired(items_view(messages@)),
{
    let ghost views = items_view(messages@);
    let mut i: usize = 0;
    while i < messages.len()
        invariant_except_break
            first_dangling(views, 0) == first_dangling(views, i as int),
        invariant
            views == items_view(messages@),
            i <= messages@.len(),
        ensures
            i == first_dangling(views, 0),
        decreases messages@.len() - i,
    {
        if dangles(&messages, i) {
            break;
        }
        i += 1;
    }
    let mut kept = messages;
    kept.truncate(i);
    assert(items_view(kept@) =~= views.take(i as int));
    kept
}

/// The messages that can be sent to a provider again: those of the model that
/// say nothing are left out, and the rest ends before the first tool call that
/// was never answered. Nothing else is changed.
pub fn filter_valid_messages(raw_messages: &[Json]) -> (r: Vec<Json>)
    ensures
        items_view(r@) == repaired(sendable(items_view(raw_messages@))),
{
    let ghost views = items_view(raw_messages@);
    let ghost keep = |message: JsonView| is_sendable(message);
    let mut kept: Vec<Json> = Vec::new();
    let mut i: usize = 0;
    assert(views.take(0).filter(keep) =~= Seq::empty()) by {
        reveal(Seq::filter);
    }
    assert(items_view(kept@) =~= Seq::empty());
    while i < raw_messages.len()
        invariant
            views == items_view(raw_messages@),
            keep == (|message: JsonView| is_sendable(message)),
            i <= raw_messages@.len(),
            items_view(kept@) == views.take(i as int).filter(keep),
        decreases raw_messages@.len() - i,
    {
        let ghost before = items_view(kept@);
        proof {
            assert(views.take(i + 1).drop_last() =~= views.take(i as int));
            assert(views.take(i + 1).last() == raw_messages@[i as int]@);
            reveal(Seq::filter);
        }
        if can_send(&raw_messages[i]) {
            let message = raw_messages[i].clone();
            kept.push(message);
            assert(items_view(kept@) =~= before.push(message@));
        }
        i += 1;
    }
    assert(views.take(raw_messages@.len() as int) =~= views);
    repair_dangling_tool_calls(kept)
}

/// Whether each tool call that is answered is answered before the model speaks
/// again: the order in which the agent writes a conversation.
pub open spec fn in_order(messages: Seq<JsonView>) -> bool {
    forall|i: int, k: int|
        #![trigger call_ids(messages[i])[k]]
        0 <= i < messages.len() && 0 <= k < call_ids(messages[i]).len() && answered_after(
            messages,
            i,
            call_ids(messages[i])[k],
        ) ==> exists|j: int|
            i < j < messages.len() && answers(#[trigger] messages[j], call_ids(messages[i])[k]) && forall|
                m: int,
            |
                i < m <= j ==> !says(#[trigger] messages[m], "role"@, "assistant"@)
}

proof fn lemma_first_dangling(messages: Seq<JsonView>, i: int)
    requires
        0 <= i <= messages.len(),
    ensures
        i <= first_dangling(messages, i) <= messages.len(),
        forall|j: int| i <= j < first_dangling(messages, i) ==> !is_dangling(messages, j),
        first_dangling(messages, i) < messages.len() ==> is_dangling(
            messages,
            first_dangling(messages, i),
        ),
    decreases messages.len() - i,
{
    if i < messages.len() && !is_dangling(messages, i) {
        lemma_first_dangling(messages, i + 1);
    }
}

/// Whether a message between the positions `i` and `end` answers the tool call
/// `id`.
pub open spec fn answered_between(messages: Seq<JsonView>, i: int, end: int, id: Seq<char>) -> bool {
    exists|j: int| i < j < end && answers(#[trigger] messages[j], id)
}

/// Whether the repair drops no answer that a kept tool call needs: each call
/// that is kept has an answer that is kept.
pub open spec fn keeps_answers(messages: Seq<JsonView>) -> bool {
    forall|i: int, k: int|
        0 <= i < first_dangling(messages, 0) && says(messages[i], "role"@, "assistant"@) && 0 <= k
            < call_ids(messages[i]).len() ==> answered_between(
            messages,
            i,
            first_dangling(messages, 0),
            #[trigger] call_ids(messages[i])[k],
        )
}

/// The repair of a conversation that is in order drops no answer that a kept
/// tool call needs.
pub proof fn law_order_keeps_answers(messages: Seq<JsonView>)
    requires
        in_order(messages),
    ensures
        keeps_answers(messages),
{
    let cut = first_dangling(messages, 0);
    lemma_first_dangling(messages, 0);
    assert forall|i: int, k: int|
        0 <= i < cut && says(messages[i], "role"@, "assistant"@) && 0 <= k < call_ids(
            messages[i],
        ).len() implies answered_between(messages, i, cut, #[trigger] call_ids(messages[i])[k]) by {
        let id = call_ids(messages[i])[k];
        assert(!is_dangling(messages, i));
        assert(answered_after(messages, i, id));
        let j = choose|j: int|
            i < j < messages.len() && answers(#[trigger] messages[j], id) && forall|m: int|
                i < m <= j ==> !says(#[trigger] messages[m], "role"@, "assistant"@);
        if j >= cut {
            assert(says(messages[cut], "role"@, "assistant"@));
        }
    }
}

/// After the repair every tool call of the model has its answer, unless what
/// was dropped held the only answer to a call that was kept.
pub proof fn law_repaired_has_no_dangling(messages: Seq<JsonView>)
    requires
        keeps_answers(messages),
    ensures
        forall|i: int| 0 <= i < repaired(messages).len() ==> !is_dangling(repaired(messages), i),
{
    let kept = repaired(messages);
    lemma_first_dangling(messages, 0);
    assert forall|i: int| 0 <= i < kept.len() implies !is_dangling(kept, i) by {
        assert(kept[i] == messages[i]);
        if says(messages[i], "role"@, "assistant"@) {
            assert forall|k: int| 0 <= k < call_ids(kept[i]).len() implies answered_after(
                kept,
                i,
                #[trigger] call_ids(kept[i])[k],
            ) by {
                let id = call_ids(messages[i])[k];
                let cut = first_dangling(messages, 0);
                assert(answered_between(messages, i, cut, id));
                let j = choose|j: int| i < j < cut && answers(#[trigger] messages[j], id);
                assert(kept[j] == messages[j]);
            }
        }
    }
}

/// Repairing a second time changes nothing, unless what was dropped the first
/// time held the only answer to a call that was kept.
pub proof fn law_repair_is_idempotent(messages: Seq<JsonView>)
    requires
        keeps_answers(messages),
    ensures
        repaired(repaired(messages)) == repaired(messages),
{
    let kept = repaired(messages);
    law_repaired_has_no_dangling(messages);
    lemma_first_dangling(kept, 0);
    assert(kept.take(kept.len() as int) =~= kept);
}

/// What is sent again is what was there, unchanged, and every message of the
/// model in it says something or calls a tool.
pub proof fn law_sent_again_says_something(messages: Seq<JsonView>, i: int)
    requires
        0 <= i < repaired(sendable(messages)).len(),
    ensures
        is_sendable(repaired(sendable(messages))[i]),
        messages.contains(repaired(sendable(messages))[i]),
{
    let keep = |message: JsonView| is_sendable(message);
    lemma_first_dangling(sendable(messages), 0);
    messages.lemma_filter_pred(keep, i);
    messages.lemma_filter_contains_rev(keep, sendable(messages)[i]);
}

/// A conversation in which every call has its answer, and in which every
/// message of the model says something, is sent again as it is.
pub proof fn law_sound_conversation_is_sent_whole(messages: Seq<JsonView>)
    requires
        forall|i: int| 0 <= i < messages.len() ==> is_sendable(#[trigger] messages[i]),
        forall|i: int| 0 <= i < messages.len() ==> !is_dangling(messages, i),
    ensures
        repaired(sendable(messages)) == messages,
{
    lemma_all_sendable(messages);
    lemma_first_dangling(messages, 0);
    assert(messages.take(messages.len() as int) =~= messages);
}

proof fn lemma_all_sendable(messages: Seq<JsonView>)
    requires
        forall|i: int| 0 <= i < messages.len() ==> is_sendable(#[trigger] messages[i]),
    ensures
        sendable(messages) == messages,
    decreases messages.len(),
{
    reveal(Seq::filter);
    if messages.len() > 0 {
        lemma_all_sendable(messages.drop_last());
        assert(messages.drop_last().push(messages.last()) =~= messages);
        assert(is_sendable(messages[messages.len() - 1]));
    } else {
        assert(sendable(messages) =~= messages);
    }
}

/// Whatever the messages are, those that are kept stand at the beginning,
/// unchanged and in order; what is dropped begins with a dangling message.
pub proof fn law_repaired_is_a_prefix(messages: Seq<JsonView>)
    ensures
        repaired(messages).is_prefix_of(messages),
        repaired(messages).len() < messages.len() ==> is_dangling(
            messages,
            repaired(messages).len() as int,
        ),
{
    lemma_first_dangling(messages, 0);
}

/// Whether the message is one of the model's.
pub open spec fn is_models(message: JsonView) -> bool {
    message.field("role"@) == Some(JsonView::Text("assistant"@))
}

/// Whether the block of an answer says or does something.
pub open spec fn does_something(block: JsonView) -> bool {
    ||| block.field("type"@) == Some(JsonView::Text("tool_use"@))
    ||| block.field("type"@) == Some(JsonView::Text("text"@)) && (block.field("text"@) matches Some(
        JsonView::Text(text),
    ) && text.len() > 0)
}

/// Every message of another than the model is sent again. One of the model's is
/// where it has text, a tool call beside it, or a block that says or does
/// something, and is left out otherwise; those that are sent keep their order.
pub proof fn law_empty_answers_are_left_out(message: JsonView, messages: Seq<JsonView>)
    ensures
        !is_models(message) ==> is_sendable(message),
        is_models(message) ==> match message.field("content"@) {
            Some(JsonView::Text(text)) => is_sendable(message) <==> text.len() > 0 || calls_of(
                message,
            ).len() > 0,
            Some(JsonView::Array(blocks)) => is_sendable(message) <==> calls_of(message).len() > 0
                || exists|i: int| 0 <= i < blocks.len() && does_something(#[trigger] blocks[i]),
            _ => is_sendable(message) <==> calls_of(message).len() > 0,
        },
        sendable(messages) == messages.filter(|message: JsonView| is_sendable(message)),
{
    if let Some(JsonView::Array(blocks)) = message.field("content"@) {
        assert(blocks_of(message) == blocks);
        if exists|i: int| 0 <= i < blocks.len() && does_something(#[trigger] blocks[i]) {
            let i = choose|i: int| 0 <= i < blocks.len() && does_something(#[trigger] blocks[i]);
            assert(is_meaningful(blocks_of(message)[i]));
        }
        if exists|i: int|
            0 <= i < blocks_of(message).len() && is_meaningful(#[trigger] blocks_of(message)[i]) {
            let i = choose|i: int|
                0 <= i < blocks_of(message).len() && is_meaningful(#[trigger] blocks_of(message)[i]);
            assert(does_something(blocks[i]));
        }
    }
}

/// The id that a block or an entry has.
pub open spec fn id_of(item: JsonView) -> Option<Seq<char>> {
    match item.field("id"@) {
        Some(JsonView::Text(id)) => Some(id),
        _ => None,
    }
}

/// The ids of a list are those of its entries that have one, in order; of blocks
/// those of the tool calls among them.
pub proof fn law_ids_are_in_order(items: Seq<JsonView>)
    ensures
        ids_in(items, false) == items.filter_map(|item: JsonView| id_of(item)),
        ids_in(items, true) == items.filter(
            |item: JsonView| item.field("type"@) == Some(JsonView::Text("tool_use"@)),
        ).filter_map(|item: JsonView| id_of(item)),
    decreases items.len(),
{
    reveal(Seq::filter);
    let ids = |item: JsonView| id_of(item);
    let uses = |item: JsonView| item.field("type"@) == Some(JsonView::Text("tool_use"@));
    if items.len() > 0 {
        let rest = items.drop_last();
        let last = items.last();
        law_ids_are_in_order(rest);
        if uses(last) {
            assert(items.filter(uses).drop_last() =~= rest.filter(uses));
        }
        if let Some(id) = id_of(last) {
            assert(rest.filter_map(ids).push(id) =~= rest.filter_map(ids) + seq![id]);
            assert(rest.filter(uses).filter_map(ids).push(id) =~= rest.filter(uses).filter_map(ids)
                + seq![id]);
        }
    } else {
        assert(ids_in(items, false) =~= items.filter_map(ids));
        assert(ids_in(items, true) =~= items.filter(uses).filter_map(ids));
    }
}

/// A message of a tool answers the call that it names, and a message of the user
/// the calls that the answers among its blocks name; no other message answers
/// any.
pub proof fn law_answers_name_their_call(message: JsonView, id: Seq<char>)
    ensures
        message.field("role"@) == Some(JsonView::Text("tool"@)) ==> (answers(message, id)
            <==> message.field("tool_call_id"@) == Some(JsonView::Text(id))),
        message.field("role"@) == Some(JsonView::Text("user"@)) ==> (answers(message, id) <==> (
        message.field("content"@) matches Some(JsonView::Array(blocks)) && exists|i: int|
            0 <= i < blocks.len() && (#[trigger] blocks[i]).field("type"@) == Some(
                JsonView::Text("tool_result"@),
            ) && blocks[i].field("tool_use_id"@) == Some(JsonView::Text(id)))),
        message.field("role"@) != Some(JsonView::Text("user"@)) && message.field("role"@) != Some(
            JsonView::Text("tool"@),
        ) ==> !answers(message, id),
{
    reveal_strlit("tool");
    reveal_strlit("user");
    assert("tool"@[0] == 't' && "user"@[0] == 'u');
    if let Some(JsonView::Array(blocks)) = message.field("content"@) {
        assert(blocks_of(message) == blocks);
        if exists|i: int|
            0 <= i < blocks.len() && (#[trigger] blocks[i]).field("type"@) == Some(
                JsonView::Text("tool_result"@),
            ) && blocks[i].field("tool_use_id"@) == Some(JsonView::Text(id)) {
            let i = choose|i: int|
                0 <= i < blocks.len() && (#[trigger] blocks[i]).field("type"@) == Some(
                    JsonView::Text("tool_result"@),
                ) && blocks[i].field("tool_use_id"@) == Some(JsonView::Text(id));
            assert(block_answers(blocks_of(message)[i], id));
        }
        if exists|i: int|
            0 <= i < blocks_of(message).len() && block_answers(#[trigger] blocks_of(message)[i], id) {
            let i = choose|i: int|
                0 <= i < blocks_of(message).len() && block_answers(
                    #[trigger] blocks_of(message)[i],
                    id,
                );
            assert(blocks[i].field("type"@) == Some(JsonView::Text("tool_result"@)));
        }
    }
}

} // verus!
