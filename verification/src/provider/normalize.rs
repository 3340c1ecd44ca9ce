//! A conversation that was kept for the Messages API, in the form of Chat
//! Completions: a topic may change its provider.
use crate::json::{items_view, json_as_text, with_field, Json, JsonView};
use crate::provider::messages::{call_ids, calls_of, field_is, ids_in, is_yes, says, says_yes};
use crate::provider::openai_compat::{
    answer_json, build_openai_raw_assistant, build_openai_tool_result, image_block_openai,
    image_part, labeled, tool_json,
};
use crate::provider::openai_responses::text_or;
use crate::session::{extract_message_text, message_text, text_in};
use crate::types::{call_views, ImageSource, ImageView};
use vstd::prelude::*;
use vstd::string::*;

verus! {

/// The arguments of a tool call among the blocks, as text.
pub open spec fn input_text(block: JsonView) -> Seq<char> {
    match block.field("input"@) {
        Some(input) => json_as_text(input),
        None => "{}"@,
    }
}

/// The tool calls among the blocks of an answer: their ids, names and
/// arguments.
pub open spec fn chat_calls(blocks: Seq<JsonView>) -> Seq<(Seq<char>, Seq<char>, Seq<char>)>
    decreases blocks.len(),
{
    if blocks.len() == 0 {
        Seq::empty()
    } else {
        let before = chat_calls(blocks.drop_last());
        let block = blocks.last();
        match block.text_field("id"@) {
            Some(id) => if says(block, "type"@, "tool_use"@) {
                before.push((id, text_or(block, "name"@, Seq::empty()), input_text(block)))
            } else {
                before
            },
            None => before,
        }
    }
}

/// The answers of tools among the blocks, each a message of its own.
pub open spec fn chat_results(blocks: Seq<JsonView>) -> Seq<JsonView>
    decreases blocks.len(),
{
    if blocks.len() == 0 {
        Seq::empty()
    } else {
        let before = chat_results(blocks.drop_last());
        let block = blocks.last();
        match block.text_field("tool_use_id"@) {
            Some(id) => if says(block, "type"@, "tool_result"@) {
                before.push(
                    tool_json(id, labeled(message_text(block), says_yes(block, "is_error"@))),
                )
            } else {
                before
            },
            None => before,
        }
    }
}

/// Where an image block has its image from.
pub open spec fn image_source(source: JsonView) -> ImageView {
    if says(source, "type"@, "url"@) {
        ImageView::Url { url: text_or(source, "url"@, Seq::empty()) }
    } else {
        ImageView::Base64 {
            media_type: text_or(source, "media_type"@, Seq::empty()),
            data: text_or(source, "data"@, Seq::empty()),
        }
    }
}

/// A block of what the user said: an image takes the other form, the rest stays.
pub open spec fn chat_part(block: JsonView) -> JsonView {
    match block.field("source"@) {
        Some(source) => if says(block, "type"@, "image"@) {
            image_part(image_source(source))
        } else {
            block
        },
        None => block,
    }
}

/// The blocks of what the user said, without the answers of tools.
pub open spec fn chat_parts(blocks: Seq<JsonView>) -> Seq<JsonView>
    decreases blocks.len(),
{
    if blocks.len() == 0 {
        Seq::empty()
    } else if says(blocks.last(), "type"@, "tool_result"@) {
        chat_parts(blocks.drop_last())
    } else {
        chat_parts(blocks.drop_last()).push(chat_part(blocks.last()))
    }
}

/// A message in the form of Chat Completions. An answer has its tool calls
/// beside its text; the answers of tools are messages of their own, before what
/// the user said besides. A message without blocks has that form already.
pub open spec fn chat_form(message: JsonView) -> Seq<JsonView> {
    match message.array_field("content"@) {
        Some(blocks) => if says(message, "role"@, "assistant"@) {
            if calls_of(message).len() > 0 {
                seq![message]
            } else {
                seq![answer_json(message_text(message), Seq::empty(), chat_calls(blocks))]
            }
        } else if says(message, "role"@, "user"@) {
            let parts = chat_parts(blocks);
            if parts.len() > 0 {
                chat_results(blocks).push(
                    with_field(message, "content"@, JsonView::Array(parts)),
                )
            } else {
                chat_results(blocks)
            }
        } else {
            seq![message]
        },
        None => seq![message],
    }
}

/// The messages in the form of Chat Completions.
pub open spec fn chat_forms(messages: Seq<JsonView>) -> Seq<JsonView>
    decreases messages.len(),
{
    if messages.len() == 0 {
        Seq::empty()
    } else {
        chat_forms(messages.drop_last()) + chat_form(messages.last())
    }
}

/// The tool calls among the blocks of an answer.
fn read_calls(blocks: &Vec<Json>) -> (r: Vec<(String, String, String)>)
    ensures
        call_views(r@) == chat_calls(items_view(blocks@)),
{
    let ghost views = items_view(blocks@);
    let mut calls: Vec<(String, String, String)> = Vec::new();
    let mut i: usize = 0;
    assert(call_views(calls@) =~= Seq::empty());
    while i < blocks.len()
        invariant
            views == items_view(blocks@),
            i <= blocks@.len(),
            call_views(calls@) == chat_calls(views.take(i as int)),
        decreases blocks@.len() - i,
    {
        let block = &blocks[i];
        proof {
            assert(views.take(i + 1).drop_last() =~= views.take(i as int));
            assert(views.take(i + 1).last() == block@);
        }
        let ghost before = call_views(calls@);
        if let Some(id) = block.get_str("id") {
            if field_is(block, "type", "tool_use") {
                let arguments = match block.get("input") {
                    Some(input) => input.to_text(),
                    None => "{}".to_owned(),
                };
                let call = (id.to_owned(), text_in(block, "name"), arguments);
                calls.push(call);
                assert(call_views(calls@) =~= before.push((call.0@, call.1@, call.2@)));
            }
        }
        i += 1;
    }
    assert(views.take(blocks@.len() as int) =~= views);
    calls
}

/// The answers of tools among the blocks.
fn read_results(blocks: &Vec<Json>) -> (r: Vec<Json>)
    ensures
        items_view(r@) == chat_results(items_view(blocks@)),
{
    let ghost views = items_view(blocks@);
    let mut results: Vec<Json> = Vec::new();
    let mut i: usize = 0;
    assert(items_view(results@) =~= Seq::empty());
    while i < blocks.len()
        invariant
            views == items_view(blocks@),
            i <= blocks@.len(),
            items_view(results@) == chat_results(views.take(i as int)),
        decreases blocks@.len() - i,
    {
        let block = &blocks[i];
        proof {
            assert(views.take(i + 1).drop_last() =~= views.take(i as int));
            assert(views.take(i + 1).last() == block@);
        }
        let ghost before = items_view(results@);
        if let Some(id) = block.get_str("tool_use_id") {
            if field_is(block, "type", "tool_result") {
                let text = extract_message_text(block);
                let result = build_openai_tool_result(
                    id,
                    text.as_str(),
                    is_yes(block, "is_error"),
                );
                results.push(result);
                assert(items_view(results@) =~= before.push(result@));
            }
        }
        i += 1;
    }
    assert(views.take(blocks@.len() as int) =~= views);
    results
}

/// A block of what the user said.
fn read_part(block: &Json) -> (r: Json)
    ensures
        r@ == chat_part(block@),
{
    if let Some(source) = block.get("source") {
        if field_is(block, "type", "image") {
            let image = if field_is(source, "type", "url") {
                ImageSource::Url { url: text_in(source, "url") }
            } else {
                ImageSource::Base64 {
                    media_type: text_in(source, "media_type"),
                    data: text_in(source, "data"),
                }
            };
            return image_block_openai(&image);
        }
    }
    block.clone()
}

/// The blocks of what the user said, without the answers of tools.
fn read_parts(blocks: &Vec<Json>) -> (r: Vec<Json>)
    ensures
        items_view(r@) == chat_parts(items_view(blocks@)),
{
    let ghost views = items_view(blocks@);
    let mut parts: Vec<Json> = Vec::new();
    let mut i: usize = 0;
    assert(items_view(parts@) =~= Seq::empty());
    while i < blocks.len()
        invariant
            views == items_view(blocks@),
            i <= blocks@.len(),
            items_view(parts@) == chat_parts(views.take(i as int)),
        decreases blocks@.len() - i,
    {
        proof {
            assert(views.take(i + 1).drop_last() =~= views.take(i as int));
            assert(views.take(i + 1).last() == blocks@[i as int]@);
        }
        let ghost before = items_view(parts@);
        if !field_is(&blocks[i], "type", "tool_result") {
            let part = read_part(&blocks[i]);
            parts.push(part);
            assert(items_view(parts@) =~= before.push(part@));
        }
        i += 1;
    }
    assert(views.take(blocks@.len() as int) =~= views);
    parts
}

/// Appends the message in the form of Chat Completions.
fn push_chat_form(out: &mut Vec<Json>, message: &Json)
    ensures
        items_view(final(out)@) == items_view(old(out)@) + chat_form(message@),
{
    let ghost before = items_view(out@);
    if let Some(blocks) = message.get_array("content") {
        if field_is(message, "role", "assistant") {
            let calls_beside: bool = match message.get_array("tool_calls") {
                Some(calls) => {
                    assert(items_view(calls@).len() == calls@.len());
                    calls.len() > 0
                },
                None => false,
            };
            if !calls_beside {
                let text = extract_message_text(message);
                let calls = read_calls(blocks);
                let answer = build_openai_raw_assistant(text.as_str(), "", calls.as_slice());
                proof {
                    reveal_strlit("");
                    assert(""@ =~= Seq::empty());
                }
                out.push(answer);
                assert(items_view(out@) =~= before + seq![answer@]);
                return;
            }
        } else if field_is(message, "role", "user") {
            let mut results = read_results(blocks);
            let ghost answers = items_view(results@);
            out.append(&mut results);
            assert(items_view(out@) =~= before + answers);
            let parts = read_parts(blocks);
            assert(items_view(parts@).len() == parts@.len());
            if parts.len() > 0 {
                proof {
                    crate::json::lemma_array_view(parts);
                }
                let said = message.clone().with("content", Json::Array(parts));
                out.push(said);
                assert(items_view(out@) =~= before + answers.push(said@));
            }
            return;
        }
    }
    let same_message = message.clone();
    out.push(same_message);
    assert(items_view(out@) =~= before + seq![message@]);
}

/// The messages in the form of Chat Completions.
pub fn anthropic_to_chat_messages(messages: &[Json]) -> (r: Vec<Json>)
    ensures
        items_view(r@) == chat_forms(items_view(messages@)),
{
    let ghost views = items_view(messages@);
    let mut out: Vec<Json> = Vec::new();
    let mut i: usize = 0;
    assert(items_view(out@) =~= Seq::empty());
    while i < messages.len()
        invariant
            views == items_view(messages@),
            i <= messages@.len(),
            items_view(out@) == chat_forms(views.take(i as int)),
        decreases messages@.len() - i,
    {
        proof {
            assert(views.take(i + 1).drop_last() =~= views.take(i as int));
            assert(views.take(i + 1).last() == messages@[i as int]@);
        }
        push_chat_form(&mut out, &messages[i]);
        i += 1;
    }
    assert(views.take(messages@.len() as int) =~= views);
    out
}

/// A conversation in the form of Chat Completions, whose messages have no
/// blocks, stays as it is.
pub proof fn law_chat_form_stays(messages: Seq<JsonView>)
    requires
        forall|i: int|
            0 <= i < messages.len() ==> (#[trigger] messages[i]).array_field("content"@) is None,
    ensures
        chat_forms(messages) == messages,
    decreases messages.len(),
{
    if messages.len() > 0 {
        assert forall|i: int| 0 <= i < messages.len() - 1 implies (
        #[trigger] messages.drop_last()[i]).array_field("content"@) is None by {
            assert(messages.drop_last()[i] == messages[i]);
        }
        law_chat_form_stays(messages.drop_last());
        assert(messages[messages.len() - 1].array_field("content"@) is None);
        assert(messages.drop_last() + seq![messages.last()] =~= messages);
    } else {
        assert(chat_forms(messages) =~= messages);
    }
}

proof fn lemma_ids_of_calls(blocks: Seq<JsonView>)
    ensures
        chat_calls(blocks).len() == ids_in(blocks, true).len(),
        forall|k: int|
            0 <= k < chat_calls(blocks).len() ==> (#[trigger] chat_calls(blocks)[k]).0 == ids_in(
                blocks,
                true,
            )[k],
    decreases blocks.len(),
{
    if blocks.len() > 0 {
        lemma_ids_of_calls(blocks.drop_last());
    }
}

/// Every tool call of an answer is kept, in order, under its id.
pub proof fn law_calls_are_kept(message: JsonView)
    requires
        says(message, "role"@, "assistant"@),
        message.array_field("content"@) is Some,
        calls_of(message).len() == 0,
    ensures
        ({
            let calls = chat_calls(message.array_field("content"@)->0);
            &&& calls.len() == call_ids(message).len()
            &&& forall|k: int|
                0 <= k < calls.len() ==> (#[trigger] calls[k]).0 == call_ids(message)[k]
            &&& chat_form(message) == seq![
                answer_json(message_text(message), Seq::empty(), calls),
            ]
        }),
{
    lemma_ids_of_calls(message.array_field("content"@)->0);
    assert(ids_in(calls_of(message), false) =~= Seq::empty());
}

/// An answer of a tool stays the answer to the same call.
pub proof fn law_answers_are_kept(blocks: Seq<JsonView>, i: int, id: Seq<char>)
    requires
        0 <= i < blocks.len(),
        says(blocks[i], "type"@, "tool_result"@),
        says(blocks[i], "tool_use_id"@, id),
    ensures
        chat_results(blocks).contains(
            tool_json(id, labeled(message_text(blocks[i]), says_yes(blocks[i], "is_error"@))),
        ),
    decreases blocks.len(),
{
    let wanted = tool_json(id, labeled(message_text(blocks[i]), says_yes(blocks[i], "is_error"@)));
    let all = chat_results(blocks);
    if i == blocks.len() - 1 {
        assert(all.last() == wanted);
    } else {
        let before = chat_results(blocks.drop_last());
        law_answers_are_kept(blocks.drop_last(), i, id);
        let k = choose|k: int| 0 <= k < before.len() && before[k] == wanted;
        assert(all[k] == wanted);
    }
}

/// Whether the block is of the kind.
pub open spec fn is_of(block: JsonView, kind: Seq<char>) -> bool {
    block.field("type"@) == Some(JsonView::Text(kind))
}

/// The text in the field of a block, or nothing.
pub open spec fn block_says(block: JsonView, name: Seq<char>) -> Seq<char> {
    match block.field(name) {
        Some(JsonView::Text(text)) => text,
        _ => Seq::empty(),
    }
}

/// The tool call that a block is, where it is one with an id.
pub open spec fn call_in(block: JsonView) -> Option<(Seq<char>, Seq<char>, Seq<char>)> {
    match block.field("id"@) {
        Some(JsonView::Text(id)) => if is_of(block, "tool_use"@) {
            Some(
                (
                    id,
                    block_says(block, "name"@),
                    match block.field("input"@) {
                        Some(input) => json_as_text(input),
                        None => "{}"@,
                    },
                ),
            )
        } else {
            None
        },
        _ => None,
    }
}

/// The answer of a tool that a block is, where it is one to a call with an id:
/// the id, what was answered, and whether the tool failed.
pub open spec fn result_told(block: JsonView) -> Option<JsonView> {
    match block.field("tool_use_id"@) {
        Some(JsonView::Text(id)) => if is_of(block, "tool_result"@) {
            Some(
                tool_json(
                    id,
                    (if block.field("is_error"@) == Some(JsonView::Bool(true)) {
                        "[ERROR] "@
                    } else {
                        "[SUCCESS] "@
                    }) + message_text(block),
                ),
            )
        } else {
            None
        },
        _ => None,
    }
}

/// Every tool call of an answer is kept, in order, with its id, its name and the
/// text of its arguments; every answer of a tool becomes a message of its own,
/// in order, that says whether the tool failed; and everything else that the
/// user said stays, in order.
pub proof fn law_every_block_is_kept(blocks: Seq<JsonView>)
    ensures
        chat_calls(blocks) == blocks.filter_map(|block: JsonView| call_in(block)),
        chat_results(blocks) == blocks.filter_map(|block: JsonView| result_told(block)),
        chat_parts(blocks) == blocks.filter(
            |block: JsonView| !is_of(block, "tool_result"@),
        ).map_values(|block: JsonView| chat_part(block)),
    decreases blocks.len(),
{
    reveal(Seq::filter);
    let calls = |block: JsonView| call_in(block);
    let results = |block: JsonView| result_told(block);
    let said = |block: JsonView| !is_of(block, "tool_result"@);
    let part = |block: JsonView| chat_part(block);
    if blocks.len() > 0 {
        let rest = blocks.drop_last();
        let last = blocks.last();
        law_every_block_is_kept(rest);
        if let Some(call) = call_in(last) {
            assert(rest.filter_map(calls).push(call) =~= rest.filter_map(calls) + seq![call]);
        }
        if let Some(result) = result_told(last) {
            assert(rest.filter_map(results).push(result) =~= rest.filter_map(results) + seq![
                result,
            ]);
        }
        if said(last) {
            assert(rest.filter(said).push(last).map_values(part) =~= rest.filter(said).map_values(
                part,
            ).push(chat_part(last)));
        }
    } else {
        assert(chat_calls(blocks) =~= blocks.filter_map(calls));
        assert(chat_results(blocks) =~= blocks.filter_map(results));
        assert(chat_parts(blocks) =~= blocks.filter(said).map_values(part));
    }
}

/// A block of text stays as it is, and an image stays the same image, by its
/// address or by its bytes, in the other form.
pub proof fn law_images_stay_the_same(block: JsonView, source: JsonView)
    ensures
        !is_of(block, "image"@) ==> chat_part(block) == block,
        is_of(block, "image"@) && block.field("source"@) == Some(source) && is_of(source, "url"@)
            ==> chat_part(block) == image_part(ImageView::Url { url: block_says(source, "url"@) }),
        is_of(block, "image"@) && block.field("source"@) == Some(source) && is_of(
            source,
            "base64"@,
        ) ==> chat_part(block) == image_part(
            ImageView::Base64 {
                media_type: block_says(source, "media_type"@),
                data: block_says(source, "data"@),
            },
        ),
{
    reveal_strlit("url");
    reveal_strlit("base64");
    assert("url"@.len() == 3 && "base64"@.len() == 6);
}

/// What the user said is kept behind the answers of tools that came with it,
/// with its role and everything else of it but its blocks; where it held nothing
/// but answers, nothing else is kept of it. Messages keep their order.
pub proof fn law_chat_form_of_what_is_said(message: JsonView, blocks: Seq<JsonView>, name: Seq<char>)
    requires
        message.field("role"@) == Some(JsonView::Text("user"@)),
        message.field("content"@) == Some(JsonView::Array(blocks)),
    ensures
        ({
            let out = chat_form(message);
            let results = chat_results(blocks);
            let parts = chat_parts(blocks);
            &&& parts.len() == 0 ==> out == results
            &&& parts.len() > 0 ==> {
                &&& out.len() == results.len() + 1
                &&& out.drop_last() == results
                &&& out.last().field("content"@) == Some(JsonView::Array(parts))
                &&& name != "content"@ ==> out.last().field(name) == message.field(name)
            }
        }),
{
    reveal_strlit("assistant");
    reveal_strlit("user");
    assert("assistant"@.len() == 9 && "user"@.len() == 4);
    assert(message.array_field("content"@) == Some(blocks));
    if chat_parts(blocks).len() > 0 {
        assert(chat_form(message).drop_last() =~= chat_results(blocks));
    }
}

/// A conversation takes the other form message by message.
pub proof fn law_forms_follow_each_other(messages: Seq<JsonView>)
    ensures
        chat_forms(messages) == messages.map_values(
            |message: JsonView| chat_form(message),
        ).flatten_alt(),
    decreases messages.len(),
{
    let form = |message: JsonView| chat_form(message);
    if messages.len() > 0 {
        law_forms_follow_each_other(messages.drop_last());
        assert(messages.map_values(form).drop_last() =~= messages.drop_last().map_values(form));
    }
}

} // verus!
