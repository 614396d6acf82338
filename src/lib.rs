//! The protocol engine of an AMQP 0-9-1 broker: the field, frame and method
//! codecs, the content assembler, the handshake and channel rules, SASL PLAIN
//! parsing, and the in-memory queue registry with its default exchange.

pub mod connection;
pub mod content;
pub mod error;
pub mod field;
pub mod frame;
pub mod methods;
pub mod queue;
pub mod sasl;
pub mod wire;
