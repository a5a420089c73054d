//! A line-oriented chat relay: the session registry, the nickname handshake
//! and the command dispatcher, with their behaviour stated as contracts.

pub mod client;
pub mod command;
pub mod handshake;
pub mod laws;
pub mod registry;
pub mod router;
pub mod session;
pub mod text;
pub mod transport;
