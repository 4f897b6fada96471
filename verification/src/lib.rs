//! Bookkeeping and protocol logic of a relay node that bridges socket clients
//! into a gossip overlay: rooms with last-writer-wins document state, the
//! registry of connected clients, and the signaling state machine.

pub mod keyed;
pub mod room;
pub mod registry;
pub mod codec;
pub mod message;
pub mod relay;
pub mod connection;
pub mod theorems;
pub mod monitoring;
pub mod startup;
