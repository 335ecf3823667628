//! Position synchronisation for a small multiplayer world: the datagram
//! format, the registry of connected players, and the decisions the server
//! takes for each inbound datagram and each maintenance pass.
//!
//! Everything here works on plain values. Sockets, clocks and task
//! scheduling live with the caller, which hands in bytes, addresses and
//! timestamps and gets back the datagrams to send.

pub mod buffer;
pub mod byte_order;
pub mod game_state;
pub mod ident;
pub mod packet;
pub mod sequences;
pub mod server;
pub mod tasks;
pub mod text;
