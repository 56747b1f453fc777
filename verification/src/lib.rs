//! Request-side logic of a multi-channel chat agent runtime: per-chat turn
//! serialization with a bounded queue of pending messages, validation of the
//! caller's user id and of agent-to-agent bearer tokens, and the decisions
//! that the session, skill and health endpoints make.

pub mod a2a;
pub mod api_error;
pub mod chat_turn_queue;
pub mod headers;
pub mod health;
pub mod sessions;
pub mod skills;
pub mod tenant;
pub mod text;
pub mod user_id;
