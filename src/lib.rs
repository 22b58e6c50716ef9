//! Protocol layer for addressable smart servos: value types, the modifier
//! encoder, the frame codec and the request state machine of a session.

pub mod decimal;
pub mod error;
pub mod frame;
pub mod message_types;
pub mod session;
