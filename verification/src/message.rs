//! Messages that come in from a channel.
use crate::json::{Json, JsonView};
use crate::text::option_text;
use vstd::prelude::*;
use vstd::string::*;

verus! {

/// A file that came with a message.
#[derive(Debug)]
pub struct Attachment {
    /// Its media type.
    pub content_type: String,
    /// Where it was saved, where it could be.
    pub saved_path: Option<String>,
}

/// What an [`Attachment`] holds.
#[verifier::ext_equal]
pub struct AttachmentView {
    /// Its media type.
    pub content_type: Seq<char>,
    /// Where it was saved, where it could be.
    pub saved_path: Option<Seq<char>>,
}

impl View for Attachment {
    type V = AttachmentView;

    open spec fn view(&self) -> AttachmentView {
        AttachmentView {
            content_type: self.content_type@,
            saved_path: option_text(self.saved_path),
        }
    }
}

/// What a list of attachments holds.
pub open spec fn attachments_view(attachments: Seq<Attachment>) -> Seq<AttachmentView> {
    attachments.map_values(|attachment: Attachment| attachment@)
}

/// A message that has come in.
#[derive(Debug)]
pub struct InboundMessage {
    /// Who sent it.
    pub sender: String,
    /// The sender's address.
    pub sender_address: String,
    /// What it is about.
    pub topic: String,
    /// When it was sent: the seconds since the start of 1970.
    pub timestamp_secs: i64,
    /// When it was sent: the nanoseconds since that second.
    pub timestamp_nanos: u32,
    /// What else is known of it, an object.
    pub metadata: Json,
    /// Its text.
    pub text: Option<String>,
    /// Its text as Markdown.
    pub markdown: Option<String>,
    /// The files that came with it.
    pub attachments: Vec<Attachment>,
}

/// What an [`InboundMessage`] holds.
#[verifier::ext_equal]
pub struct InboundView {
    /// Who sent it.
    pub sender: Seq<char>,
    /// The sender's address.
    pub sender_address: Seq<char>,
    /// What it is about.
    pub topic: Seq<char>,
    /// When it was sent: the seconds since the start of 1970.
    pub timestamp_secs: i64,
    /// When it was sent: the nanoseconds since that second.
    pub timestamp_nanos: u32,
    /// What else is known of it.
    pub metadata: JsonView,
    /// Its text.
    pub text: Option<Seq<char>>,
    /// Its text as Markdown.
    pub markdown: Option<Seq<char>>,
    /// The files that came with it.
    pub attachments: Seq<AttachmentView>,
}

impl View for InboundMessage {
    type V = InboundView;

    open spec fn view(&self) -> InboundView {
        InboundView {
            sender: self.sender@,
            sender_address: self.sender_address@,
            topic: self.topic@,
            timestamp_secs: self.timestamp_secs,
            timestamp_nanos: self.timestamp_nanos,
            metadata: self.metadata@,
            text: option_text(self.text),
            markdown: option_text(self.markdown),
            attachments: attachments_view(self.attachments@),
        }
    }
}

} // verus!
