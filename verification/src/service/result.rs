//! What a processed message comes to.
use crate::json::{items_view, Json};
use crate::session::{cut_down, extract_user_assistant_pairs};
use crate::text::option_text;
use vstd::prelude::*;
use vstd::string::*;

verus! {

/// What the agent has done about a message.
#[derive(Debug, PartialEq, Eq)]
pub struct AgentResult {
    /// Whether the reply has been sent.
    pub reply_sent_by_tool: bool,
    /// Whether it was sent without the model asking for it.
    pub reply_auto_delivered: bool,
    /// The reply.
    pub reply_text: Option<String>,
}

/// What the agent has done about a message: where no reply has been sent, the
/// text of the answer is the reply, if there is any.
pub fn agent_result(
    reply_sent_by_tool: bool,
    reply_auto_delivered: bool,
    reply_text_from_tool: Option<String>,
    text: String,
) -> (r: AgentResult)
    ensures
        r.reply_sent_by_tool == reply_sent_by_tool,
        r.reply_auto_delivered == (reply_sent_by_tool && reply_auto_delivered),
        option_text(r.reply_text) == if reply_sent_by_tool {
            option_text(reply_text_from_tool)
        } else if text@.len() == 0 {
            None
        } else {
            Some(text@)
        },
{
    if reply_sent_by_tool {
        AgentResult { reply_sent_by_tool: true, reply_auto_delivered, reply_text: reply_text_from_tool }
    } else {
        AgentResult {
            reply_sent_by_tool: false,
            reply_auto_delivered: false,
            reply_text: if text.as_str().is_empty() {
                None
            } else {
                Some(text)
            },
        }
    }
}

/// How a conversation is cut down when it is reset.
#[derive(Debug, Clone, Copy, PartialEq, Eq, Structural)]
pub enum CompressionMode {
    /// Nothing is kept.
    Nothing,
    /// The last turns are kept.
    Heuristic,
    /// A summary is kept.
    Llm,
}

/// What is told of a reset.
pub fn reset_message(mode: CompressionMode) -> (r: String)
    ensures
        r@ == "mode="@ + match mode {
            CompressionMode::Nothing => "none"@,
            CompressionMode::Heuristic => "heuristic"@,
            CompressionMode::Llm => "llm"@,
        },
{
    let name = match mode {
        CompressionMode::Nothing => "none",
        CompressionMode::Heuristic => "heuristic",
        CompressionMode::Llm => "llm",
    };
    "mode=".to_owned().concat(name)
}

/// Whether a conversation of so many tokens is reset, where a context is full
/// at `limit` tokens.
pub fn is_reset_due(input_tokens: u64, limit: Option<u64>) -> (r: bool)
    ensures
        r == match limit {
            Some(limit) => input_tokens >= limit,
            None => false,
        },
{
    match limit {
        Some(limit) => input_tokens >= limit,
        None => false,
    }
}

/// What is left of a conversation that is reset: nothing, or its last
/// `keep_pairs` turns with notes on their tool calls. These are also what is
/// left where a summary is wanted and none has been written.
pub fn reset_context(raw_context: &[Json], mode: CompressionMode, keep_pairs: usize) -> (r: Vec<
    Json,
>)
    ensures
        items_view(r@) == match mode {
            CompressionMode::Nothing => Seq::empty(),
            _ => cut_down(items_view(raw_context@), keep_pairs as nat, None),
        },
{
    match mode {
        CompressionMode::Nothing => {
            let none: Vec<Json> = Vec::new();
            assert(items_view(none@) =~= Seq::empty());
            none
        },
        _ => extract_user_assistant_pairs(raw_context, keep_pairs, None),
    }
}

} // verus!
