//! Verified core of a chat bot that assembles insult phrases from a word
//! cache: the command grammar, the cache with deduplicated insertion and
//! random phrase selection, the loader that partitions remote records, and
//! the dispatcher that decides the reply for each classified command.
//! Transport (webhook events, the chat API, the remote store's client) is
//! left to the surrounding program.

pub mod cache;
pub mod classify;
pub mod dispatch;
pub mod events;
pub mod records;
mod rng;
pub mod text;
pub mod words;

pub use cache::InsertOutcome;
pub use classify::classify;
pub use classify::to_user_tag;
pub use classify::CommandMatch;
pub use dispatch::handle_command;
pub use dispatch::handle_message;
pub use dispatch::DispatchOutcome;
pub use events::CallbackEvent;
pub use events::EventType;
pub use events::MessageEvent;
pub use cache::WordCache;
pub use records::build_cache;
pub use records::WordRecord;
pub use text::trim_str;
pub use words::Category;
