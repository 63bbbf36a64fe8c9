//! Verified core of a Mifare Classic card reader/writer: the decoding of
//! replies from the native NFC bridge, the parsing of hex keys and block data,
//! the preview and dump formats of card sectors, the plan that writes a dump
//! back to a card, and the decisions of the reader-presence watcher.

pub mod text;
pub mod bridge;
pub mod hex;
pub mod sector;
pub mod dump;
pub mod presence;
pub mod watch;
