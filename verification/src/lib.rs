//! Intent Database: a conversation cache that matches new conversations with
//! stored ones by intent, topics and sentiment.

pub mod clock;
pub mod conversation;
pub mod text;
pub mod format;
pub mod matcher;
pub mod ranking;
pub mod database;
pub mod ai;
pub mod funnel;
pub mod clustering;
pub mod flow;
pub mod generation;
pub mod web;
pub mod devtools;

pub use conversation::{Conversation, ConversationEntry, Intent, Sentiment};
pub use database::IntentDatabase;
