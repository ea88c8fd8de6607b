//! Verified core of a chat-driven resume editing agent.

pub mod text;
pub mod json;
pub mod llm;
pub mod workspace;
pub mod mailer;
pub mod tools;
pub mod channel;
pub mod agent;
pub mod providers;
pub mod config;
