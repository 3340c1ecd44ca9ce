//! The loop that calls the model, runs its tools and delivers its answer.
pub mod retry;
pub mod replay;
pub mod response;
pub mod embedded_ask;
pub mod ask_tags;
pub mod collected;
pub mod context;
pub mod course;
pub mod run;
pub mod turn;
pub mod window;
