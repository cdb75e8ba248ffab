//! A bounded, deduplicated clipboard history: the entry model, the history
//! store and its mutation rules, the tagged and legacy text encodings used on
//! disk and on the wire, and the decision logic of the clipboard monitor, the
//! control listener and the pusher. All I/O (clipboard, file, socket) lives
//! outside this crate and hands plain values in and out.

pub mod entry;
pub mod history;
pub mod text;
pub mod codec;
pub mod parse;
pub mod roundtrip;
pub mod persist;
pub mod protocol;
pub mod monitor;
pub mod config;
pub mod clippo_app;
