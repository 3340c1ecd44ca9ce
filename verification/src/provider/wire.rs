//! What the messages and requests hold that are sent to the providers.
use crate::agent_loop::context::raw_user;
use crate::agent_loop::response::{raw_answer, ResponseView, ToolCallView};
use crate::agent_loop::run::raw_tool_answer;
use crate::json::{json_as_text, number_view, text_as_json, JsonView};
use crate::provider::anthropic::{
    api_headers, block_json, message_json, plain_body, request_body, tool_json, tool_use_json,
    user_blocks_json, with_breakpoints, with_params,
};
use crate::provider::openai_compat::{
    block_calls, call_json, chat_body, function_json, has_image, key_headers, openai_message,
    user_parts,
};
use crate::provider::select::ApiKind;
use crate::types::{blocks_text, BlockView, ImageView, MessageView, Role, ToolView};
use vstd::prelude::*;
use vstd::string::*;

verus! {

/// Whether the field `name` holds the text `text`.
pub open spec fn text_under(json: JsonView, name: Seq<char>, text: Seq<char>) -> bool {
    json.field(name) == Some(JsonView::Text(text))
}

proof fn lemma_names()
    ensures
        "role"@.len() == 4,
        "content"@.len() == 7,
        "tool_calls"@.len() == 10,
        "reasoning_content"@.len() == 17,
        "tool_call_id"@.len() == 12,
        "id"@.len() == 2,
        "type"@.len() == 4,
        "function"@.len() == 8,
        "name"@.len() == 4,
        "arguments"@.len() == 9,
        "source"@.len() == 6,
        "media_type"@.len() == 10,
        "data"@.len() == 4,
        "url"@.len() == 3,
        "text"@.len() == 4,
        "image_url"@.len() == 9,
        "tool_use_id"@.len() == 11,
        "is_error"@.len() == 8,
        "input"@.len() == 5,
        "description"@.len() == 11,
        "input_schema"@.len() == 12,
        "parameters"@.len() == 10,
        "type"@ != "data"@,
        "type"@ != "name"@,
        "type"@ != "text"@,
{
    reveal_strlit("role");
    reveal_strlit("content");
    reveal_strlit("tool_calls");
    reveal_strlit("reasoning_content");
    reveal_strlit("tool_call_id");
    reveal_strlit("id");
    reveal_strlit("type");
    reveal_strlit("function");
    reveal_strlit("name");
    reveal_strlit("arguments");
    reveal_strlit("source");
    reveal_strlit("media_type");
    reveal_strlit("data");
    reveal_strlit("url");
    reveal_strlit("text");
    reveal_strlit("image_url");
    reveal_strlit("tool_use_id");
    reveal_strlit("is_error");
    reveal_strlit("input");
    reveal_strlit("description");
    reveal_strlit("input_schema");
    reveal_strlit("parameters");
    assert("type"@[0] == 't' && "data"@[0] == 'd' && "name"@[0] == 'n');
    assert("type"@[1] == 'y' && "text"@[1] == 'e');
}

/// A tool's answer is kept under the id of its call, word for word. Anthropic
/// takes it as a block of the user's, marked as an error exactly where it is
/// one; the others take it as a message of the tool, whose text begins with what
/// has become of the call.
pub proof fn law_tool_answer_is_kept_whole(
    kind: ApiKind,
    id: Seq<char>,
    content: Seq<char>,
    is_error: bool,
)
    ensures
        ({
            let message = raw_tool_answer(kind, id, content, is_error);
            &&& kind == ApiKind::Anthropic ==> {
                &&& text_under(message, "role"@, "user"@)
                &&& match message.field("content"@) {
                    Some(JsonView::Array(blocks)) => {
                        &&& blocks.len() == 1
                        &&& text_under(blocks[0], "type"@, "tool_result"@)
                        &&& text_under(blocks[0], "tool_use_id"@, id)
                        &&& text_under(blocks[0], "content"@, content)
                        &&& blocks[0].field("is_error"@) == if is_error {
                            Some(JsonView::Bool(true))
                        } else {
                            None::<JsonView>
                        }
                    },
                    _ => false,
                }
            }
            &&& kind != ApiKind::Anthropic ==> {
                &&& text_under(message, "role"@, "tool"@)
                &&& text_under(message, "tool_call_id"@, id)
                &&& is_error ==> text_under(message, "content"@, "[ERROR] "@ + content)
                &&& !is_error ==> text_under(message, "content"@, "[SUCCESS] "@ + content)
            }
        }),
{
    lemma_names();
}

/// The text and the tool calls of an answer are kept word for word and in their
/// order, whatever the provider. Anthropic takes the text as a block, where there
/// is any, and each call as a block with its arguments read; the others take the
/// text as the content, with the reasoning before it, and the calls beside it
/// with the text of their arguments, an empty object where that is no JSON.
pub proof fn law_answer_is_kept_whole(kind: ApiKind, response: ResponseView)
    ensures
        ({
            let message = raw_answer(kind, response);
            let calls = response.calls;
            &&& text_under(message, "role"@, "assistant"@)
            &&& kind == ApiKind::Anthropic ==> match message.field("content"@) {
                Some(JsonView::Array(blocks)) => {
                    let first: int = if response.text.len() > 0 {
                        1
                    } else {
                        0
                    };
                    &&& blocks.len() == first + calls.len()
                    &&& first == 1 ==> text_under(blocks[0], "type"@, "text"@) && text_under(
                        blocks[0],
                        "text"@,
                        response.text,
                    )
                    &&& forall|i: int| #![trigger calls[i]] 0 <= i < calls.len() ==> is_call_of(blocks[first + i], calls[i])
                },
                _ => false,
            }
            &&& kind != ApiKind::Anthropic ==> {
                &&& message.field("content"@) == Some(
                    if response.text.len() == 0 {
                        JsonView::Null
                    } else if response.reasoning.len() == 0 {
                        JsonView::Text(response.text)
                    } else {
                        JsonView::Text(
                            "<think>"@ + response.reasoning + "</think>\n\n"@ + response.text,
                        )
                    },
                )
                &&& response.reasoning.len() > 0 ==> text_under(
                    message,
                    "reasoning_content"@,
                    response.reasoning,
                )
                &&& response.reasoning.len() == 0 ==> message.field("reasoning_content"@) is None
                &&& calls.len() == 0 ==> message.field("tool_calls"@) is None
                &&& calls.len() > 0 ==> match message.field("tool_calls"@) {
                    Some(JsonView::Array(list)) => list.len() == calls.len() && forall|i: int|
                        #![trigger calls[i]]
                        0 <= i < calls.len() ==> is_function_call_of(list[i], calls[i]),
                    _ => false,
                }
            }
        }),
{
    lemma_names();
    let calls = response.calls;
    let triples = crate::agent_loop::response::call_triples(calls);
    assert(triples.len() == calls.len());
    assert forall|i: int| #![trigger calls[i]] 0 <= i < calls.len() implies triples[i] == (
        calls[i].id,
        calls[i].name,
        calls[i].arguments,
    ) by {
    }
    if kind == ApiKind::Anthropic {
        let blocks = crate::provider::anthropic::answer_blocks(response.text, triples);
        let first: int = if response.text.len() > 0 {
            1
        } else {
            0
        };
        assert(raw_answer(kind, response).field("content"@) == Some(JsonView::Array(blocks)));
        assert forall|i: int| #![trigger calls[i]] 0 <= i < calls.len() implies is_call_of(
            blocks[first + i],
            calls[i],
        ) by {
            let call = triples[i];
            assert(blocks[first + i] == tool_use_json(
                call.0,
                call.1,
                crate::provider::anthropic::call_input(call.2),
            ));
        }
    } else {
        let list = crate::provider::openai_compat::kept_calls(triples);
        assert forall|i: int| #![trigger calls[i]] 0 <= i < calls.len() implies is_function_call_of(
            list[i],
            calls[i],
        ) by {
            let call = triples[i];
            assert(list[i] == call_json(
                call.0,
                call.1,
                crate::provider::openai_compat::safe_arguments(call.2),
            ));
        }
    }
}

/// Whether the block is the call, with its arguments read.
pub open spec fn is_call_of(block: JsonView, call: ToolCallView) -> bool {
    &&& text_under(block, "type"@, "tool_use"@)
    &&& text_under(block, "id"@, call.id)
    &&& text_under(block, "name"@, call.name)
    &&& block.field("input"@) == Some(
        match text_as_json(call.arguments) {
            Some(input) => input,
            None => JsonView::Object(Map::empty()),
        },
    )
}

/// Whether the entry is the call of a function, with the text of its arguments.
pub open spec fn is_function_call_of(entry: JsonView, call: ToolCallView) -> bool {
    &&& text_under(entry, "id"@, call.id)
    &&& text_under(entry, "type"@, "function"@)
    &&& entry.field("function"@) matches Some(function) && text_under(
        function,
        "name"@,
        call.name,
    ) && text_under(
        function,
        "arguments"@,
        if text_as_json(call.arguments) is Some {
            call.arguments
        } else {
            "{}"@
        },
    )
}

/// Whether the document is the image as Anthropic takes it.
pub open spec fn is_image_block(json: JsonView, source: ImageView) -> bool {
    &&& text_under(json, "type"@, "image"@)
    &&& json.field("source"@) matches Some(inner) && match source {
        ImageView::Base64 { media_type, data } => text_under(inner, "type"@, "base64"@)
            && text_under(inner, "media_type"@, media_type) && text_under(inner, "data"@, data),
        ImageView::Url { url } => text_under(inner, "type"@, "url"@) && text_under(
            inner,
            "url"@,
            url,
        ),
    }
}

/// Whether the document is the image as the other providers take it.
pub open spec fn is_image_part(json: JsonView, source: ImageView) -> bool {
    &&& text_under(json, "type"@, "image_url"@)
    &&& json.field("image_url"@) matches Some(inner) && text_under(
        inner,
        "url"@,
        match source {
            ImageView::Base64 { media_type, data } => "data:"@ + media_type + ";base64,"@ + data,
            ImageView::Url { url } => url,
        },
    )
}

/// The blocks that the user can say: texts and images.
pub open spec fn said_blocks(blocks: Seq<BlockView>) -> Seq<BlockView> {
    blocks.filter(|block: BlockView| block is Text || block is Image)
}

/// Whether the document is the block as Anthropic takes it.
pub open spec fn is_said_block(json: JsonView, block: BlockView) -> bool {
    match block {
        BlockView::Text { text } => text_under(json, "type"@, "text"@) && text_under(
            json,
            "text"@,
            text,
        ),
        BlockView::Image { source } => is_image_block(json, source),
        _ => false,
    }
}

/// Whether the document is the block as the other providers take it.
pub open spec fn is_said_part(json: JsonView, block: BlockView) -> bool {
    match block {
        BlockView::Text { text } => text_under(json, "type"@, "text"@) && text_under(
            json,
            "text"@,
            text,
        ),
        BlockView::Image { source } => is_image_part(json, source),
        _ => false,
    }
}

proof fn lemma_said_blocks(blocks: Seq<BlockView>)
    ensures
        user_blocks_json(blocks).len() == said_blocks(blocks).len(),
        user_parts(blocks).len() == said_blocks(blocks).len(),
        forall|i: int|
            #![trigger said_blocks(blocks)[i]]
            0 <= i < said_blocks(blocks).len() ==> is_said_block(
                user_blocks_json(blocks)[i],
                said_blocks(blocks)[i],
            ) && is_said_part(user_parts(blocks)[i], said_blocks(blocks)[i]),
    decreases blocks.len(),
{
    reveal(Seq::filter);
    lemma_names();
    if blocks.len() > 0 {
        let rest = blocks.drop_last();
        let block = blocks.last();
        lemma_said_blocks(rest);
        if block is Text || block is Image {
            assert(said_blocks(blocks) == said_blocks(rest).push(block));
            assert(is_said_block(block_json(block), block));
            assert forall|i: int|
                #![trigger said_blocks(blocks)[i]]
                0 <= i < said_blocks(blocks).len() implies is_said_block(
                user_blocks_json(blocks)[i],
                said_blocks(blocks)[i],
            ) && is_said_part(user_parts(blocks)[i], said_blocks(blocks)[i]) by {
                if i < said_blocks(rest).len() {
                    assert(said_blocks(blocks)[i] == said_blocks(rest)[i]);
                    assert(user_blocks_json(blocks)[i] == user_blocks_json(rest)[i]);
                    assert(user_parts(blocks)[i] == user_parts(rest)[i]);
                }
            }
        }
    }
}

/// What the user says is sent whole and in its order: Anthropic takes every text
/// and every image as a block; so do the others where there is an image, and
/// otherwise they take the texts as one.
pub proof fn law_what_the_user_says_is_sent_whole(kind: ApiKind, blocks: Seq<BlockView>)
    ensures
        ({
            let message = raw_user(kind, blocks);
            let said = said_blocks(blocks);
            let images = exists|i: int| 0 <= i < blocks.len() && #[trigger] blocks[i] is Image;
            &&& text_under(message, "role"@, "user"@)
            &&& kind == ApiKind::Anthropic ==> match message.field("content"@) {
                Some(JsonView::Array(list)) => list.len() == said.len() && forall|i: int|
                    #![trigger said[i]]
                    0 <= i < said.len() ==> is_said_block(list[i], said[i]),
                _ => false,
            }
            &&& kind != ApiKind::Anthropic && images ==> match message.field("content"@) {
                Some(JsonView::Array(list)) => list.len() == said.len() && forall|i: int|
                    #![trigger said[i]]
                    0 <= i < said.len() ==> is_said_part(list[i], said[i]),
                _ => false,
            }
            &&& kind != ApiKind::Anthropic && !images ==> text_under(
                message,
                "content"@,
                blocks_text(blocks),
            )
        }),
{
    lemma_names();
    lemma_said_blocks(blocks);
}

/// The text of blocks that hold one text alone is that text.
pub proof fn law_one_text_is_sent_as_it_is(kind: ApiKind, text: Seq<char>)
    ensures
        kind != ApiKind::Anthropic ==> text_under(
            raw_user(kind, seq![BlockView::Text { text }]),
            "content"@,
            text,
        ),
{
    lemma_names();
    let blocks = seq![BlockView::Text { text }];
    reveal_with_fuel(blocks_text, 2);
    assert(blocks_text(blocks) =~= text);
    assert(!has_image(blocks));
}

/// The value that a request holds under `name`: what the parameters set, and
/// `value` where they set nothing.
pub open spec fn set_or(params: Option<JsonView>, name: Seq<char>, value: JsonView) -> JsonView {
    match params {
        Some(JsonView::Object(fields)) => if fields.dom().contains(name) {
            fields[name]
        } else {
            value
        },
        _ => value,
    }
}

/// Whether the document is the tool as Anthropic takes it.
pub open spec fn is_tool_of(json: JsonView, tool: ToolView) -> bool {
    &&& text_under(json, "name"@, tool.name)
    &&& text_under(json, "description"@, tool.description)
    &&& json.field("input_schema"@) matches Some(schema) && forall|name: Seq<char>|
        name != "oneOf"@ && name != "allOf"@ && name != "anyOf"@ ==> schema.field(name)
            == #[trigger] tool.input_schema.field(name)
}

/// Whether the document is the tool as the other providers take it.
pub open spec fn is_function_of(json: JsonView, tool: ToolView) -> bool {
    &&& text_under(json, "type"@, "function"@)
    &&& json.field("function"@) matches Some(function) && text_under(function, "name"@, tool.name)
        && text_under(function, "description"@, tool.description) && function.field("parameters"@)
        == Some(tool.input_schema)
}

proof fn lemma_request_names()
    ensures
        "model"@.len() == 5,
        "stream"@.len() == 6,
        "stream_options"@.len() == 14,
        "messages"@.len() == 8,
        "tools"@.len() == 5,
        "max_tokens"@.len() == 10,
        "system"@.len() == 6,
        "include_usage"@.len() == 13,
        "model"@ != "tools"@,
        "stream"@ != "system"@,
{
    reveal_strlit("model");
    reveal_strlit("stream");
    reveal_strlit("stream_options");
    reveal_strlit("messages");
    reveal_strlit("tools");
    reveal_strlit("max_tokens");
    reveal_strlit("system");
    reveal_strlit("include_usage");
    assert("model"@[0] == 'm' && "tools"@[0] == 't');
    assert("stream"@[1] == 't' && "system"@[1] == 'y');
}

/// A request names the model, asks for a stream with its counts, and holds the
/// system prompt first, where there is one, behind it all messages in their
/// order, and every tool. What the parameters set stands in its place, and
/// everything that they set is in the request.
pub proof fn law_chat_request_holds_everything(
    model: Seq<char>,
    params: Option<JsonView>,
    messages: Seq<JsonView>,
    tools: Seq<ToolView>,
    system: Seq<char>,
    name: Seq<char>,
)
    ensures
        ({
            let body = chat_body(model, params, messages, tools, system);
            let first: int = if system.len() > 0 {
                1
            } else {
                0
            };
            &&& body.field("model"@) == Some(set_or(params, "model"@, JsonView::Text(model)))
            &&& body.field("stream"@) == Some(set_or(params, "stream"@, JsonView::Bool(true)))
            &&& params is None ==> {
                &&& body.field("stream_options"@) matches Some(options) && options.field(
                    "include_usage"@,
                ) == Some(JsonView::Bool(true))
                &&& match body.field("messages"@) {
                    Some(JsonView::Array(list)) => {
                        &&& list.len() == first + messages.len()
                        &&& list.skip(first) == messages
                        &&& first == 1 ==> text_under(list[0], "role"@, "system"@) && text_under(
                            list[0],
                            "content"@,
                            system,
                        )
                    },
                    _ => false,
                }
                &&& tools.len() == 0 ==> body.field("tools"@) is None
                &&& tools.len() > 0 ==> match body.field("tools"@) {
                    Some(JsonView::Array(list)) => list.len() == tools.len() && forall|i: int|
                        #![trigger tools[i]]
                        0 <= i < tools.len() ==> is_function_of(list[i], tools[i]),
                    _ => false,
                }
            }
            &&& params matches Some(set) ==> set.field(name) is Some ==> body.field(name)
                == set.field(name)
            &&& params matches Some(set) ==> set.field(name) is None ==> body.field(name)
                == chat_body(model, None, messages, tools, system).field(name)
        }),
{
    lemma_names();
    lemma_request_names();
    let list = crate::provider::openai_compat::with_system(system, messages);
    let first: int = if system.len() > 0 {
        1
    } else {
        0
    };
    assert(list.skip(first) =~= messages);
    let entries = tools.map_values(|tool: ToolView| function_json(tool));
    assert forall|i: int| #![trigger tools[i]] 0 <= i < tools.len() implies is_function_of(
        entries[i],
        tools[i],
    ) by {
        assert(entries[i] == function_json(tools[i]));
    }
}

/// A request to Anthropic names the model, asks for a stream of an answer of a
/// bounded length, and holds all messages in their order, the system prompt and
/// every tool, each where there are any. What the parameters set stands in its
/// place.
pub proof fn law_plain_request_holds_everything(
    model: Seq<char>,
    messages: Seq<JsonView>,
    tools: Seq<ToolView>,
    system: Seq<char>,
    params: Option<JsonView>,
    name: Seq<char>,
)
    ensures
        ({
            let body = plain_body(model, messages, tools, system);
            &&& text_under(body, "model"@, model)
            &&& body.field("stream"@) == Some(JsonView::Bool(true))
            &&& body.field("max_tokens"@) == Some(number_view(16384))
            &&& body.field("messages"@) == Some(JsonView::Array(messages))
            &&& body.field("system"@) == if system.len() > 0 {
                Some(JsonView::Text(system))
            } else {
                None::<JsonView>
            }
            &&& tools.len() == 0 ==> body.field("tools"@) is None
            &&& tools.len() > 0 ==> match body.field("tools"@) {
                Some(JsonView::Array(list)) => list.len() == tools.len() && forall|i: int|
                    #![trigger tools[i]]
                    0 <= i < tools.len() ==> is_tool_of(list[i], tools[i]),
                _ => false,
            }
            &&& params matches Some(set) ==> with_params(body, params).field(name)
                == if set.field(name) is Some {
                set.field(name)
            } else {
                body.field(name)
            }
            &&& params is None ==> with_params(body, params) == body
            &&& request_body(model, params, messages, tools, system) == with_breakpoints(
                with_params(body, params),
            )
        }),
{
    lemma_names();
    lemma_request_names();
    let entries = tools.map_values(|tool: ToolView| tool_json(tool));
    assert forall|i: int| #![trigger tools[i]] 0 <= i < tools.len() implies is_tool_of(
        entries[i],
        tools[i],
    ) by {
        let tool = tools[i];
        assert(entries[i] == tool_json(tool));
        let schema = crate::provider::anthropic::plain_schema(tool.input_schema);
        assert(entries[i].field("input_schema"@) == Some(schema));
        assert forall|name: Seq<char>|
            name != "oneOf"@ && name != "allOf"@ && name != "anyOf"@ implies schema.field(name)
            == #[trigger] tool.input_schema.field(name) by {
        }
    }
}

/// A key is sent with every request for which there is one, and the name of the
/// client with every one for which there is one; nothing else is added but, to
/// Anthropic, the version of its interface.
pub proof fn law_headers_hold_the_key(key: Option<Seq<char>>, name: Option<Seq<char>>)
    ensures
        ({
            let count: nat = (if key is Some {
                1nat
            } else {
                0nat
            }) + (if name is Some {
                1nat
            } else {
                0nat
            });
            &&& key_headers(key, name).len() == count
            &&& api_headers(key, name).len() == count + 1
            &&& key matches Some(key_text) ==> key_headers(key, name)[0] == (
                "authorization"@,
                "Bearer "@ + key_text,
            ) && api_headers(key, name)[1] == ("x-api-key"@, key_text)
            &&& name matches Some(text) ==> key_headers(key, name).last() == ("user-agent"@, text)
                && api_headers(key, name).last() == ("user-agent"@, text)
            &&& api_headers(key, name)[0] == ("anthropic-version"@, "2023-06-01"@)
        }),
{
}

/// A message of a conversation is sent with all its blocks: to Anthropic each
/// as it is, in order, under the role of who speaks, a tool's answer under the
/// user's; to the others as the text of the speaker, with the tool calls beside
/// it, and a tool's answer under the id of its call.
pub proof fn law_messages_are_sent_whole(message: MessageView)
    ensures
        ({
            let json = message_json(message);
            &&& text_under(
                json,
                "role"@,
                if message.role == Role::Assistant {
                    "assistant"@
                } else {
                    "user"@
                },
            )
            &&& match json.field("content"@) {
                Some(JsonView::Array(list)) => list.len() == message.content.len() && forall|i: int|
                    #![trigger message.content[i]]
                    0 <= i < list.len() ==> is_block_of(list[i], message.content[i]),
                _ => false,
            }
        }),
        ({
            let json = openai_message(message);
            &&& message.role == Role::Assistant ==> {
                &&& text_under(json, "role"@, "assistant"@)
                &&& json.field("content"@) == Some(
                    if blocks_text(message.content).len() > 0 {
                        JsonView::Text(blocks_text(message.content))
                    } else {
                        JsonView::Null
                    },
                )
                &&& json.field("tool_calls"@) == if block_calls(message.content).len() > 0 {
                    Some(JsonView::Array(block_calls(message.content)))
                } else {
                    None::<JsonView>
                }
            }
            &&& message.role == Role::Tool && message.content.len() > 0 ==> (match message.content[0] {
                BlockView::ToolResult { tool_use_id, content, .. } => text_under(
                    json,
                    "role"@,
                    "tool"@,
                ) && text_under(json, "tool_call_id"@, tool_use_id) && text_under(
                    json,
                    "content"@,
                    content,
                ),
                _ => text_under(json, "role"@, "user"@) && text_under(
                    json,
                    "content"@,
                    blocks_text(message.content),
                ),
            })
        }),
{
    lemma_names();
    let list = message.content.map_values(|block: BlockView| block_json(block));
    assert forall|i: int|
        #![trigger message.content[i]]
        0 <= i < list.len() implies is_block_of(list[i], message.content[i]) by {
        assert(list[i] == block_json(message.content[i]));
    }
}

/// Whether the document is the block as Anthropic takes it.
pub open spec fn is_block_of(json: JsonView, block: BlockView) -> bool {
    match block {
        BlockView::ToolUse { id, name, input } => text_under(json, "type"@, "tool_use"@)
            && text_under(json, "id"@, id) && text_under(json, "name"@, name) && json.field("input"@)
            == Some(input),
        BlockView::ToolResult { tool_use_id, content, is_error } => text_under(
            json,
            "type"@,
            "tool_result"@,
        ) && text_under(json, "tool_use_id"@, tool_use_id) && text_under(json, "content"@, content)
            && json.field("is_error"@) == if is_error {
            Some(JsonView::Bool(true))
        } else {
            None::<JsonView>
        },
        _ => is_said_block(json, block),
    }
}

/// Whether the entry beside a message is the call that the block holds.
pub open spec fn is_use_beside(entry: JsonView, block: BlockView) -> bool {
    match block {
        BlockView::ToolUse { id, name, input } => {
            &&& text_under(entry, "id"@, id)
            &&& text_under(entry, "type"@, "function"@)
            &&& entry.field("function"@) matches Some(function) && text_under(
                function,
                "name"@,
                name,
            ) && text_under(function, "arguments"@, json_as_text(input))
        },
        _ => false,
    }
}

/// The tool calls of a message stand beside it in their order, each with the
/// text of its arguments.
pub proof fn law_calls_stand_beside_the_text(blocks: Seq<BlockView>)
    ensures
        ({
            let uses = blocks.filter(|block: BlockView| block is ToolUse);
            let list = block_calls(blocks);
            &&& list.len() == uses.len()
            &&& forall|i: int|
                #![trigger uses[i]]
                0 <= i < uses.len() ==> is_use_beside(list[i], uses[i])
        }),
    decreases blocks.len(),
{
    reveal(Seq::filter);
    lemma_names();
    if blocks.len() > 0 {
        let rest = blocks.drop_last();
        let block = blocks.last();
        law_calls_stand_beside_the_text(rest);
        let used = |block: BlockView| block is ToolUse;
        let uses = blocks.filter(used);
        let list = block_calls(blocks);
        if block is ToolUse {
            assert(uses == rest.filter(used).push(block));
            assert forall|i: int| #![trigger uses[i]] 0 <= i < uses.len() implies is_use_beside(
                list[i],
                uses[i],
            ) by {
                if i < rest.filter(used).len() {
                    assert(uses[i] == rest.filter(used)[i]);
                    assert(list[i] == block_calls(rest)[i]);
                }
            }
        }
    }
}

} // verus!
