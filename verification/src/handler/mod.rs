//! The operations of the engine, one module per concern.

pub mod chat_member;
pub mod info;
pub mod todo;
