//! Messages, tools and stream events, as the agent loop and the providers
//! share them.
use crate::json::{Json, JsonView};
use vstd::prelude::*;
use vstd::string::*;

verus! {

/// Who a message is from.
#[derive(Debug, Clone, Copy, PartialEq, Eq, Structural)]
pub enum Role {
    /// The user.
    User,
    /// The model.
    Assistant,
    /// A tool, answering a call.
    Tool,
}

/// Where an image comes from.
#[derive(Debug)]
pub enum ImageSource {
    /// The image itself, in base64.
    Base64 {
        /// The media type, such as `image/png`.
        media_type: String,
        /// The base64 text.
        data: String,
    },
    /// The image's address.
    Url {
        /// The address.
        url: String,
    },
}

/// One block of a message.
#[derive(Debug)]
pub enum ContentBlock {
    /// Text.
    Text {
        /// The text.
        text: String,
    },
    /// An image.
    Image {
        /// Where the image comes from.
        source: ImageSource,
    },
    /// A call of a tool by the model.
    ToolUse {
        /// The call's id.
        id: String,
        /// The tool's name.
        name: String,
        /// The arguments.
        input: Json,
    },
    /// What a tool answered.
    ToolResult {
        /// The id of the call that is answered.
        tool_use_id: String,
        /// The answer.
        content: String,
        /// Whether the tool failed.
        is_error: bool,
    },
}

/// What an [`ImageSource`] holds.
#[verifier::ext_equal]
pub enum ImageView {
    /// The image itself, in base64.
    Base64 {
        /// The media type.
        media_type: Seq<char>,
        /// The base64 text.
        data: Seq<char>,
    },
    /// The image's address.
    Url {
        /// The address.
        url: Seq<char>,
    },
}

impl View for ImageSource {
    type V = ImageView;

    open spec fn view(&self) -> ImageView {
        match *self {
            ImageSource::Base64 { media_type, data } => ImageView::Base64 {
                media_type: media_type@,
                data: data@,
            },
            ImageSource::Url { url } => ImageView::Url { url: url@ },
        }
    }
}

impl Clone for ImageSource {
    /// The same source.
    fn clone(&self) -> (r: Self)
        ensures
            r@ == self@,
    {
        match self {
            ImageSource::Base64 { media_type, data } => ImageSource::Base64 {
                media_type: media_type.clone(),
                data: data.clone(),
            },
            ImageSource::Url { url } => ImageSource::Url { url: url.clone() },
        }
    }
}

/// What a [`ContentBlock`] holds.
#[verifier::ext_equal]
pub enum BlockView {
    /// Text.
    Text {
        /// The text.
        text: Seq<char>,
    },
    /// An image.
    Image {
        /// Where the image comes from.
        source: ImageView,
    },
    /// A call of a tool by the model.
    ToolUse {
        /// The call's id.
        id: Seq<char>,
        /// The tool's name.
        name: Seq<char>,
        /// The arguments.
        input: JsonView,
    },
    /// What a tool answered.
    ToolResult {
        /// The id of the call that is answered.
        tool_use_id: Seq<char>,
        /// The answer.
        content: Seq<char>,
        /// Whether the tool failed.
        is_error: bool,
    },
}

impl View for ContentBlock {
    type V = BlockView;

    open spec fn view(&self) -> BlockView {
        match *self {
            ContentBlock::Text { text } => BlockView::Text { text: text@ },
            ContentBlock::Image { source } => BlockView::Image { source: source@ },
            ContentBlock::ToolUse { id, name, input } => BlockView::ToolUse {
                id: id@,
                name: name@,
                input: input@,
            },
            ContentBlock::ToolResult { tool_use_id, content, is_error } => BlockView::ToolResult {
                tool_use_id: tool_use_id@,
                content: content@,
                is_error,
            },
        }
    }
}

impl Clone for ContentBlock {
    /// The same block.
    fn clone(&self) -> (r: Self)
        ensures
            r@ == self@,
    {
        match self {
            ContentBlock::Text { text } => ContentBlock::Text { text: text.clone() },
            ContentBlock::Image { source } => ContentBlock::Image { source: source.clone() },
            ContentBlock::ToolUse { id, name, input } => ContentBlock::ToolUse {
                id: id.clone(),
                name: name.clone(),
                input: input.clone(),
            },
            ContentBlock::ToolResult { tool_use_id, content, is_error } => ContentBlock::ToolResult {
                tool_use_id: tool_use_id.clone(),
                content: content.clone(),
                is_error: *is_error,
            },
        }
    }
}

/// What a list of blocks holds.
pub open spec fn blocks_view(blocks: Seq<ContentBlock>) -> Seq<BlockView> {
    blocks.map_values(|block: ContentBlock| block@)
}

/// The text of the text blocks, one after the other.
pub open spec fn blocks_text(blocks: Seq<BlockView>) -> Seq<char>
    decreases blocks.len(),
{
    if blocks.len() == 0 {
        Seq::empty()
    } else {
        blocks_text(blocks.drop_last()) + match blocks.last() {
            BlockView::Text { text } => text,
            _ => Seq::empty(),
        }
    }
}

/// The text of the text blocks, one after the other.
pub fn text_of_blocks(blocks: &[ContentBlock]) -> (r: String)
    ensures
        r@ == blocks_text(blocks_view(blocks@)),
{
    let ghost views = blocks_view(blocks@);
    let mut out = String::new();
    let mut i: usize = 0;
    while i < blocks.len()
        invariant
            views == blocks_view(blocks@),
            i <= blocks@.len(),
            out@ == blocks_text(views.take(i as int)),
        decreases blocks@.len() - i,
    {
        proof {
            assert(views.take(i + 1).drop_last() =~= views.take(i as int));
            assert(views.take(i + 1).last() == views[i as int]);
        }
        if let ContentBlock::Text { text } = &blocks[i] {
            out.append(text.as_str());
        } else {
            assert(out@ + Seq::empty() =~= out@);
        }
        i += 1;
    }
    assert(views.take(blocks@.len() as int) =~= views);
    out
}

/// A message of a conversation.
#[derive(Debug)]
pub struct Message {
    /// Who it is from.
    pub role: Role,
    /// What it says.
    pub content: Vec<ContentBlock>,
}

/// What a [`Message`] holds.
#[verifier::ext_equal]
pub struct MessageView {
    /// Who it is from.
    pub role: Role,
    /// What it says.
    pub content: Seq<BlockView>,
}

impl View for Message {
    type V = MessageView;

    open spec fn view(&self) -> MessageView {
        MessageView { role: self.role, content: blocks_view(self.content@) }
    }
}

/// The list, copied.
pub fn copy_blocks(blocks: &[ContentBlock]) -> (r: Vec<ContentBlock>)
    ensures
        blocks_view(r@) == blocks_view(blocks@),
{
    let mut out: Vec<ContentBlock> = Vec::new();
    let mut i: usize = 0;
    while i < blocks.len()
        invariant
            i <= blocks@.len(),
            out@.len() == i,
            forall|k: int| 0 <= k < i ==> #[trigger] out@[k]@ == blocks@[k]@,
        decreases blocks@.len() - i,
    {
        out.push(blocks[i].clone());
        i += 1;
    }
    assert(blocks_view(out@) =~= blocks_view(blocks@));
    out
}

impl Clone for Message {
    /// The same message.
    fn clone(&self) -> (r: Self)
        ensures
            r@ == self@,
    {
        Message { role: self.role, content: copy_blocks(self.content.as_slice()) }
    }
}

/// A tool's answer to the call `tool_use_id`.
pub open spec fn tool_answer(tool_use_id: Seq<char>, content: Seq<char>, is_error: bool) -> MessageView {
    MessageView {
        role: Role::Tool,
        content: seq![BlockView::ToolResult { tool_use_id, content, is_error }],
    }
}

impl Message {
    /// A message of the user, of one text block.
    pub fn user(text: &str) -> (r: Message)
        ensures
            r@ == (MessageView {
                role: Role::User,
                content: seq![BlockView::Text { text: text@ }],
            }),
    {
        let mut content: Vec<ContentBlock> = Vec::new();
        content.push(ContentBlock::Text { text: text.to_owned() });
        assert(blocks_view(content@) =~= seq![BlockView::Text { text: text@ }]);
        Message { role: Role::User, content }
    }

    /// A message of the user, of the given blocks.
    pub fn user_with_blocks(blocks: Vec<ContentBlock>) -> (r: Message)
        ensures
            r@ == (MessageView { role: Role::User, content: blocks_view(blocks@) }),
    {
        Message { role: Role::User, content: blocks }
    }

    /// An answer of the model, of one text block.
    pub fn assistant(text: &str) -> (r: Message)
        ensures
            r@ == (MessageView {
                role: Role::Assistant,
                content: seq![BlockView::Text { text: text@ }],
            }),
    {
        let mut content: Vec<ContentBlock> = Vec::new();
        content.push(ContentBlock::Text { text: text.to_owned() });
        assert(blocks_view(content@) =~= seq![BlockView::Text { text: text@ }]);
        Message { role: Role::Assistant, content }
    }

    /// A tool's answer to the call `tool_use_id`.
    pub fn tool_result(tool_use_id: &str, text: &str, is_error: bool) -> (r: Message)
        ensures
            r@ == tool_answer(tool_use_id@, text@, is_error),
    {
        let mut content: Vec<ContentBlock> = Vec::new();
        content.push(
            ContentBlock::ToolResult {
                tool_use_id: tool_use_id.to_owned(),
                content: text.to_owned(),
                is_error,
            },
        );
        assert(blocks_view(content@) =~= tool_answer(tool_use_id@, text@, is_error).content);
        Message { role: Role::Tool, content }
    }

    /// The text of the message.
    pub fn text(&self) -> (r: String)
        ensures
            r@ == blocks_text(self@.content),
    {
        text_of_blocks(self.content.as_slice())
    }
}

/// A tool that is offered to the model.
#[derive(Debug)]
pub struct ToolDefinition {
    /// The tool's name.
    pub name: String,
    /// What the tool does.
    pub description: String,
    /// The JSON schema of the arguments.
    pub input_schema: Json,
}

/// What a [`ToolDefinition`] holds.
#[verifier::ext_equal]
pub struct ToolView {
    /// The tool's name.
    pub name: Seq<char>,
    /// What the tool does.
    pub description: Seq<char>,
    /// The JSON schema of the arguments.
    pub input_schema: JsonView,
}

impl View for ToolDefinition {
    type V = ToolView;

    open spec fn view(&self) -> ToolView {
        ToolView {
            name: self.name@,
            description: self.description@,
            input_schema: self.input_schema@,
        }
    }
}

/// What a list of tools holds.
pub open spec fn tools_view(tools: Seq<ToolDefinition>) -> Seq<ToolView> {
    tools.map_values(|tool: ToolDefinition| tool@)
}

/// An event of a model's answer as it streams in.
#[derive(Debug, PartialEq, Eq)]
pub enum StreamEvent {
    /// More of the text.
    TextDelta(String),
    /// More of the reasoning.
    ReasoningDelta(String),
    /// A tool call begins.
    ToolUseStart {
        /// The call's id.
        id: String,
        /// The tool's name.
        name: String,
    },
    /// More of the arguments of the tool call.
    ToolInputDelta(String),
    /// The tool call is complete.
    ToolUseEnd,
    /// What the call has cost in tokens.
    Usage {
        /// Tokens of the prompt.
        input_tokens: u64,
        /// Tokens of the answer.
        output_tokens: u64,
        /// Prompt tokens that came from a cache.
        cache_hit_tokens: u64,
        /// Prompt tokens that were written to a cache.
        cache_creation_tokens: u64,
        /// Answer tokens that were spent on reasoning.
        reasoning_tokens: u64,
    },
    /// The answer is complete.
    Done,
    /// The provider reports an error.
    Error(String),
}

/// What a [`StreamEvent`] holds.
#[verifier::ext_equal]
pub enum EventView {
    /// More of the text.
    TextDelta(Seq<char>),
    /// More of the reasoning.
    ReasoningDelta(Seq<char>),
    /// A tool call begins.
    ToolUseStart {
        /// The call's id.
        id: Seq<char>,
        /// The tool's name.
        name: Seq<char>,
    },
    /// More of the arguments of the tool call.
    ToolInputDelta(Seq<char>),
    /// The tool call is complete.
    ToolUseEnd,
    /// What the call has cost in tokens.
    Usage {
        /// Tokens of the prompt.
        input_tokens: u64,
        /// Tokens of the answer.
        output_tokens: u64,
        /// Prompt tokens that came from a cache.
        cache_hit_tokens: u64,
        /// Prompt tokens that were written to a cache.
        cache_creation_tokens: u64,
        /// Answer tokens that were spent on reasoning.
        reasoning_tokens: u64,
    },
    /// The answer is complete.
    Done,
    /// The provider reports an error.
    Error(Seq<char>),
}

impl View for StreamEvent {
    type V = EventView;

    open spec fn view(&self) -> EventView {
        match *self {
            StreamEvent::TextDelta(s) => EventView::TextDelta(s@),
            StreamEvent::ReasoningDelta(s) => EventView::ReasoningDelta(s@),
            StreamEvent::ToolUseStart { id, name } => EventView::ToolUseStart {
                id: id@,
                name: name@,
            },
            StreamEvent::ToolInputDelta(s) => EventView::ToolInputDelta(s@),
            StreamEvent::ToolUseEnd => EventView::ToolUseEnd,
            StreamEvent::Usage {
                input_tokens,
                output_tokens,
                cache_hit_tokens,
                cache_creation_tokens,
                reasoning_tokens,
            } => EventView::Usage {
                input_tokens,
                output_tokens,
                cache_hit_tokens,
                cache_creation_tokens,
                reasoning_tokens,
            },
            StreamEvent::Done => EventView::Done,
            StreamEvent::Error(s) => EventView::Error(s@),
        }
    }
}

impl Clone for StreamEvent {
    /// The same event.
    fn clone(&self) -> (r: Self)
        ensures
            r@ == self@,
    {
        match self {
            StreamEvent::TextDelta(s) => StreamEvent::TextDelta(s.clone()),
            StreamEvent::ReasoningDelta(s) => StreamEvent::ReasoningDelta(s.clone()),
            StreamEvent::ToolUseStart { id, name } => StreamEvent::ToolUseStart {
                id: id.clone(),
                name: name.clone(),
            },
            StreamEvent::ToolInputDelta(s) => StreamEvent::ToolInputDelta(s.clone()),
            StreamEvent::ToolUseEnd => StreamEvent::ToolUseEnd,
            StreamEvent::Usage {
                input_tokens,
                output_tokens,
                cache_hit_tokens,
                cache_creation_tokens,
                reasoning_tokens,
            } => StreamEvent::Usage {
                input_tokens: *input_tokens,
                output_tokens: *output_tokens,
                cache_hit_tokens: *cache_hit_tokens,
                cache_creation_tokens: *cache_creation_tokens,
                reasoning_tokens: *reasoning_tokens,
            },
            StreamEvent::Done => StreamEvent::Done,
            StreamEvent::Error(s) => StreamEvent::Error(s.clone()),
        }
    }
}

/// What a list of events holds.
pub open spec fn events_view(events: Seq<StreamEvent>) -> Seq<EventView> {
    events.map_values(|event: StreamEvent| event@)
}

/// What optional events hold.
pub open spec fn option_events(events: Option<Vec<StreamEvent>>) -> Option<Seq<EventView>> {
    match events {
        Some(events) => Some(events_view(events@)),
        None => None,
    }
}

/// A tool call of an answer: its id, the tool's name and the text of its
/// arguments.
pub open spec fn call_views(calls: Seq<(String, String, String)>) -> Seq<
    (Seq<char>, Seq<char>, Seq<char>),
> {
    calls.map_values(|call: (String, String, String)| (call.0@, call.1@, call.2@))
}

} // verus!
