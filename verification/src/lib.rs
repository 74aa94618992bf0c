//! A one-shot startup handshake with a child process that announces the TCP
//! port it listens on by printing a `PORT=<digits>` line.

pub mod error;
pub mod handshake;
pub mod launch;
pub mod ready;
pub mod sentinel;
pub mod text;
pub mod transcript;
