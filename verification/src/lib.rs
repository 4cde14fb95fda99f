//! Core networking substrate for a multiplayer game server: a reliable /
//! unreliable messaging protocol over datagrams, with per-client connection
//! state, a connection handshake, packet aggregation, bitmask acknowledgement,
//! retransmission, and memory-bounded channels.

pub mod channel;
pub mod connection;
pub mod connection_stats;
pub mod constants;
pub mod dispatcher;
pub mod error;
pub mod event_in;
pub mod event_out;
pub mod message_in;
pub mod message_out;
pub mod packet;
pub mod reliable;
pub mod server;
pub mod transport_packet;
pub mod transport_server;
pub mod unreliable;
pub mod wire;
