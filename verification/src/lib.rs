//! A terminal multiplexer daemon and its client: the message protocol they
//! share, the framing of messages on a byte stream, and the decisions that
//! both programs take between two system calls.
//!
//! Everything here computes on plain values. Sockets, pseudo terminals and
//! child processes belong to the programs that drive the library.

pub mod bytes;
pub mod client;
pub mod codec;
pub mod conn;
pub mod daemon;
pub mod frame;
pub mod laws;
pub mod outgoing;
pub mod paths;
pub mod protocol;
pub mod replies;
pub mod state;
pub mod text;
pub mod turn;
pub mod wire;

