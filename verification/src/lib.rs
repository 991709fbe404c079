//! A small chat-protocol bot core: line framing, message parsing, a factoid
//! store, and the dispatcher that turns incoming lines into outgoing ones.
//!
//! Nothing here performs I/O. A caller feeds bytes in and carries the
//! resulting actions out.

pub mod text;
pub mod words;
pub mod message;
pub mod message_laws;
pub mod pattern;
pub mod pattern_laws;
pub mod factoids;
pub mod factoids_laws;
pub mod framer;
pub mod bot;
pub mod bot_laws;
pub mod config;
