//! The frames that the bridge and the agent exchange.
use crate::json::{object2, parse_json, text_as_json, with_field, Json, JsonView};
use crate::provider::messages::{field_is, says};
use crate::text::{option_text, owned, strip_trailing, without_trailing};
use vstd::prelude::*;
use vstd::string::*;

verus! {

/// A frame to the agent: a message for a thread.
#[derive(Debug, PartialEq, Eq)]
pub struct InboundFrame {
    /// The kind of the frame.
    pub frame_type: String,
    /// The thread.
    pub thread: String,
    /// The text.
    pub text: String,
    /// Who sent it.
    pub sender: Option<String>,
    /// The sender's address.
    pub sender_address: Option<String>,
}

/// What an [`InboundFrame`] holds.
#[verifier::ext_equal]
pub struct InboundFrameView {
    /// The kind of the frame.
    pub frame_type: Seq<char>,
    /// The thread.
    pub thread: Seq<char>,
    /// The text.
    pub text: Seq<char>,
    /// Who sent it.
    pub sender: Option<Seq<char>>,
    /// The sender's address.
    pub sender_address: Option<Seq<char>>,
}

impl View for InboundFrame {
    type V = InboundFrameView;

    open spec fn view(&self) -> InboundFrameView {
        InboundFrameView {
            frame_type: self.frame_type@,
            thread: self.thread@,
            text: self.text@,
            sender: option_text(self.sender),
            sender_address: option_text(self.sender_address),
        }
    }
}

/// The object with the field `name`, where there is a text for it.
pub open spec fn with_text(json: JsonView, name: Seq<char>, text: Option<Seq<char>>) -> JsonView {
    match text {
        Some(text) => with_field(json, name, JsonView::Text(text)),
        None => json,
    }
}

/// A frame as it is sent: who sent the message is left out where it is not
/// known.
pub open spec fn frame_json(frame: InboundFrameView) -> JsonView {
    with_text(
        with_text(
            with_field(
                object2(
                    "type"@,
                    JsonView::Text(frame.frame_type),
                    "thread"@,
                    JsonView::Text(frame.thread),
                ),
                "text"@,
                JsonView::Text(frame.text),
            ),
            "sender"@,
            frame.sender,
        ),
        "sender_address"@,
        frame.sender_address,
    )
}

/// The object with the field `name`, where there is a text for it.
fn add_text(json: Json, name: &str, text: &Option<String>) -> (r: Json)
    ensures
        r@ == with_text(json@, name@, option_text(*text)),
{
    match text {
        Some(text) => json.with(name, Json::text(text.as_str())),
        None => json,
    }
}

impl InboundFrame {
    /// A message for a thread.
    pub fn message(
        thread: &str,
        text: &str,
        sender: Option<String>,
        sender_address: Option<String>,
    ) -> (r: InboundFrame)
        ensures
            r@ == (InboundFrameView {
                frame_type: "message"@,
                thread: thread@,
                text: text@,
                sender: option_text(sender),
                sender_address: option_text(sender_address),
            }),
    {
        InboundFrame {
            frame_type: "message".to_owned(),
            thread: thread.to_owned(),
            text: text.to_owned(),
            sender,
            sender_address,
        }
    }

    /// The message that closes a thread.
    pub fn close(thread: &str) -> (r: InboundFrame)
        ensures
            r@ == (InboundFrameView {
                frame_type: "message"@,
                thread: thread@,
                text: "/close -y"@,
                sender: None,
                sender_address: None,
            }),
    {
        InboundFrame::message(thread, "/close -y", None, None)
    }

    /// The frame as it is sent.
    pub fn to_json(&self) -> (r: Json)
        ensures
            r@ == frame_json(self@),
    {
        let json = Json::object().with("type", Json::text(self.frame_type.as_str())).with(
            "thread",
            Json::text(self.thread.as_str()),
        ).with("text", Json::text(self.text.as_str()));
        add_text(add_text(json, "sender", &self.sender), "sender_address", &self.sender_address)
    }
}

/// A frame of the agent: a reply in a thread.
#[derive(Debug, PartialEq, Eq)]
pub struct ReplyFrame {
    /// The kind of the frame.
    pub frame_type: String,
    /// The thread.
    pub thread: String,
    /// The text.
    pub text: String,
}

/// What a [`ReplyFrame`] holds.
#[verifier::ext_equal]
pub struct ReplyView {
    /// The kind of the frame.
    pub frame_type: Seq<char>,
    /// The thread.
    pub thread: Seq<char>,
    /// The text.
    pub text: Seq<char>,
}

impl View for ReplyFrame {
    type V = ReplyView;

    open spec fn view(&self) -> ReplyView {
        ReplyView { frame_type: self.frame_type@, thread: self.thread@, text: self.text@ }
    }
}

/// The reply that a document holds, where it is one.
pub open spec fn reply_in(json: JsonView) -> Option<ReplyView> {
    if says(json, "type"@, "reply"@) {
        match (json.text_field("thread"@), json.text_field("text"@)) {
            (Some(thread), Some(text)) => Some(ReplyView { frame_type: "reply"@, thread, text }),
            _ => None,
        }
    } else {
        None
    }
}

/// What an optional reply holds.
pub open spec fn option_reply(reply: Option<ReplyFrame>) -> Option<ReplyView> {
    match reply {
        Some(reply) => Some(reply@),
        None => None,
    }
}

/// The reply that a document holds, where it is one.
pub fn read_reply(json: &Json) -> (r: Option<ReplyFrame>)
    ensures
        option_reply(r) == reply_in(json@),
{
    if !field_is(json, "type", "reply") {
        return None;
    }
    match (json.get_str("thread"), json.get_str("text")) {
        (Some(thread), Some(text)) => Some(
            ReplyFrame {
                frame_type: "reply".to_owned(),
                thread: thread.to_owned(),
                text: text.to_owned(),
            },
        ),
        _ => None,
    }
}

/// The reply that a text of the agent tells; nothing where it tells something
/// else.
pub fn parse_reply(text: &str) -> (r: Option<ReplyFrame>)
    ensures
        option_reply(r) == match text_as_json(text@) {
            Some(json) => reply_in(json),
            None => None,
        },
{
    match parse_json(text) {
        Some(json) => read_reply(&json),
        None => None,
    }
}

/// Where the agent takes the messages of a channel.
pub fn channel_url(jyc_url: &str, channel: &str) -> (r: String)
    ensures
        r@ == without_trailing(jyc_url@, '/') + "/ws/"@ + channel@,
{
    strip_trailing(jyc_url, '/').concat("/ws/").concat(channel)
}

/// How the bridge proves who it is.
pub fn authorization(token: &str) -> (r: String)
    ensures
        r@ == "Bearer "@ + token@,
{
    "Bearer ".to_owned().concat(token)
}

/// The address of the agent: that of the environment, where it says any, or
/// that of the configuration.
pub fn choose_url(environment: Option<&str>, config: Option<&str>) -> (r: Option<String>)
    ensures
        option_text(r) == match environment {
            Some(url) => if url@.len() > 0 {
                Some(url@)
            } else {
                crate::text::option_str(config)
            },
            None => crate::text::option_str(config),
        },
{
    if let Some(url) = environment {
        if !url.is_empty() {
            return Some(url.to_owned());
        }
    }
    owned(config)
}

/// A frame that is sent is never taken for a reply.
pub proof fn law_messages_are_no_replies(
    thread: Seq<char>,
    text: Seq<char>,
    sender: Option<Seq<char>>,
    sender_address: Option<Seq<char>>,
)
    ensures
        reply_in(
            frame_json(
                InboundFrameView { frame_type: "message"@, thread, text, sender, sender_address },
            ),
        ) is None,
{
    reveal_strlit("type");
    reveal_strlit("thread");
    reveal_strlit("text");
    reveal_strlit("sender");
    reveal_strlit("sender_address");
    reveal_strlit("message");
    reveal_strlit("reply");
    assert("type"@[1] != "text"@[1]);
    assert("type"@.len() != "thread"@.len());
    assert("type"@.len() != "sender"@.len());
    assert("type"@.len() != "sender_address"@.len());
    assert("message"@.len() != "reply"@.len());
    let json = frame_json(
        InboundFrameView { frame_type: "message"@, thread, text, sender, sender_address },
    );
    assert(json.field("type"@) == Some(JsonView::Text("message"@)));
}

/// A frame that is sent holds its kind, its thread and its text, and who sent it
/// as far as that is known, each under its own name.
pub proof fn law_frame_holds_the_message(frame: InboundFrameView)
    ensures
        ({
            let json = frame_json(frame);
            &&& json.field("type"@) == Some(JsonView::Text(frame.frame_type))
            &&& json.field("thread"@) == Some(JsonView::Text(frame.thread))
            &&& json.field("text"@) == Some(JsonView::Text(frame.text))
            &&& json.field("sender"@) == match frame.sender {
                Some(sender) => Some(JsonView::Text(sender)),
                None => None,
            }
            &&& json.field("sender_address"@) == match frame.sender_address {
                Some(address) => Some(JsonView::Text(address)),
                None => None,
            }
        }),
{
    reveal_strlit("type");
    reveal_strlit("thread");
    reveal_strlit("text");
    reveal_strlit("sender");
    reveal_strlit("sender_address");
    assert("type"@.len() == 4 && "text"@.len() == 4 && "thread"@.len() == 6);
    assert("sender"@.len() == 6 && "sender_address"@.len() == 14);
    assert("type"@[1] == 'y' && "text"@[1] == 'e');
    assert("thread"@[0] == 't' && "sender"@[0] == 's');
}

/// A document is a reply exactly where it says so and names a thread and a text,
/// and the reply is for that thread, with that text.
pub proof fn law_reply_is_read_whole(json: JsonView, thread: Seq<char>, text: Seq<char>)
    ensures
        json.field("type"@) == Some(JsonView::Text("reply"@)) && json.field("thread"@) == Some(
            JsonView::Text(thread),
        ) && json.field("text"@) == Some(JsonView::Text(text)) ==> (reply_in(json) matches Some(
            reply,
        ) && reply.thread == thread && reply.text == text && reply.frame_type == "reply"@),
        json.field("type"@) != Some(JsonView::Text("reply"@)) ==> reply_in(json) is None,
        json.field("thread"@) is None || json.field("text"@) is None ==> reply_in(json) is None,
{
}

} // verus!
