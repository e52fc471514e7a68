//! Server side of the milter protocol: the binary framing and codec spoken
//! between a mail transfer agent and a mail filter, the option negotiation,
//! the decoding of encoded words in header values, and the per-frame
//! decisions of a filter session.
pub mod accept_reject_action;
pub mod framing;
pub mod header_value;
pub mod message_handler;
pub mod milter;
pub mod milter_builder;
pub mod milter_error;
pub mod milter_message;
pub mod round_trip;
pub mod text;
pub mod wire;
