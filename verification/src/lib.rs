//! Verified core of an interactive command-line client for a remote
//! chat-completion service.
//!
//! The library owns the logic of the client: the JSON grammar spoken on
//! the wire ([`json`], parsed by [`parse`] and written by [`write`]), the
//! per-chunk stream decoder ([`decode`]), the conversation transcript
//! ([`transcript`]), and the REPL command and turn state machines
//! ([`engine`]).  The thin binary around it performs the HTTP transfer
//! and the terminal I/O and exchanges plain values with this library.

pub mod decode;
pub mod engine;
pub mod json;
pub mod parse;
pub mod text;
pub mod transcript;
pub mod write;
