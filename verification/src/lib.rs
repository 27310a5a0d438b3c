//! A verified engine for shared chores in a group chat: who is registered,
//! which todos exist, who does them, and when recurring ones come back.

pub mod action;
pub mod error;
pub mod handler;
pub mod interval;
pub mod laws;
pub mod message;
pub mod order;
pub mod store;
pub mod sync;
pub mod text;
pub mod util;
