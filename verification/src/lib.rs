//! Sigil: the verified core of an agent-first messenger built on Nostr.
//!
//! Strings are handled as sequences of `char`; every parser, encoder and
//! state machine here carries a contract over those sequences.
pub mod text;
pub mod base64;
pub mod guard;
pub mod table;
pub mod qr;
pub mod file;
pub mod tui;
pub mod message;
pub mod access;
pub mod contacts;
pub mod chat;
pub mod ui;
pub mod registry;
pub mod channel;
pub mod agent;
pub mod discovery;
pub mod screen;
