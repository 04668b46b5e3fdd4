//! A bounded, deduplicated, pinnable history of clipboard contents.
//!
//! The crate holds the content model, the history engine, the snapshot
//! mailbox, the image conversions and the text preview. Reading and writing
//! the system clipboard, file access and threads belong to the program that
//! embeds the engine.

pub mod clipboard;
pub mod history;
pub mod imaging;
pub mod laws;
pub mod models;
pub mod preview;
pub mod storage;
