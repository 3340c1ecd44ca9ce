//! The bridge between a chat platform and the agent: which chats are served,
//! what is handed on, and where replies go.
pub mod attachments;
pub mod config;
pub mod replies;
pub mod router;
pub mod ws;
