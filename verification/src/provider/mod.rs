//! The model providers: what is sent to them and what is read from them.
pub mod anthropic;
pub mod anthropic_events;
pub mod chat_events;
pub mod classify;
pub mod messages;
pub mod normalize;
pub mod openai_compat;
pub mod openai_responses;
pub mod params;
pub mod responses_events;
pub mod select;
pub mod sse;
pub mod stream;
pub mod usage;
pub mod wire;
