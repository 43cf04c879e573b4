//! Matchmaking lobby service: the verified state engine.
//!
//! The engine is a single-threaded state machine fed by an event queue. It
//! owns every lobby, player and game-server record, and answers each event
//! with a list of actions (messages to send, a game server to launch or
//! stop). All I/O, the QUIC transport, the child processes and the signal
//! handling live outside the library and interact with it only through
//! events and actions.

pub mod engine;
pub mod framing;
pub mod idmap;
pub mod laws;
pub mod mint;
pub mod model;
pub mod ports;
pub mod teams;
pub mod textnum;
pub mod types;
