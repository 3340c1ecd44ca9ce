//! The steps by which a provider's answer is read from its event stream.
use crate::types::{EventView, StreamEvent};
use vstd::prelude::*;

verus! {

/// What the event stream of a provider yields.
#[derive(Debug)]
pub enum SseItem {
    /// The stream is open.
    Open,
    /// A message has come in: its data.
    Message(String),
    /// The stream failed: the text of the error.
    Failed(String),
    /// The stream yields nothing more.
    Ended,
}

/// What is to be done next.
#[derive(Debug, PartialEq, Eq)]
pub enum StreamStep {
    /// Hand out the event.
    Yield(StreamEvent),
    /// Hand out an error of this text.
    Fail(String),
    /// Wait for what the stream yields next.
    Wait,
    /// The answer is over.
    Finish,
}

/// What a [`StreamStep`] holds.
#[verifier::ext_equal]
pub enum StepView {
    /// Hand out the event.
    Yield(EventView),
    /// Hand out an error of this text.
    Fail(Seq<char>),
    /// Wait for what the stream yields next.
    Wait,
    /// The answer is over.
    Finish,
}

impl View for StreamStep {
    type V = StepView;

    open spec fn view(&self) -> StepView {
        match *self {
            StreamStep::Yield(event) => StepView::Yield(event@),
            StreamStep::Fail(text) => StepView::Fail(text@),
            StreamStep::Wait => StepView::Wait,
            StreamStep::Finish => StepView::Finish,
        }
    }
}

} // verus!
