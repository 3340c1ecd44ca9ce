//! An in-process agent for large language models, verified with Verus.
pub mod agent_loop;
pub mod bridge;
pub mod conversation;
pub mod json;
pub mod message;
pub mod numbers;
pub mod order;
pub mod provider;
pub mod service;
pub mod session;
pub mod text;
pub mod types;
