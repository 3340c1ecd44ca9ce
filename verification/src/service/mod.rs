//! What a message is answered with: the model, the prompts, the skills and the
//! tools.
pub mod skills;
pub mod config;
pub mod tools;
pub mod prompt;
pub mod result;
