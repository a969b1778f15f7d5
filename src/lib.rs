//! Protocol-detecting front end for an MQTT broker: the length-field codec,
//! the CONNECT handshake classifier and rewrite, and the decisions of a
//! connection's handshake and of the byte relay that follows it.

pub mod codec;
pub mod error;
pub mod handshake;
pub mod relay;
pub mod session;
