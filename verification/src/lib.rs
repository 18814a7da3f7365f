//! Clip Bridge: the room registry, signalling rules and ICE/TURN
//! configuration of a password-in-URL clipboard relay.
pub mod text;
pub mod models;
pub mod state;
pub mod turn_relay;
pub mod ice;
pub mod routes;
pub mod signaling;
