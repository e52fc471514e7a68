//! Configuration of a filter session.
use vstd::prelude::*;

use crate::message_handler::MessageHandler;
use crate::milter::Milter;
use crate::milter_message::MilterProtocol;

verus! {

/// Used to build a Milter.
///
/// The filter does not write option negotiation replies itself: it only
/// says, with `set_protocol`, which protocol steps the MTA should leave out,
/// and the session uses that during option negotiation. Without
/// `set_protocol`, every step is asked for.
pub struct MilterBuilder<'a, H: MessageHandler> {
    message_handler: &'a mut H,
    protocol: Option<MilterProtocol>,
}

impl<'a, H: MessageHandler> MilterBuilder<'a, H> {
    /// The protocol steps to leave out, if they were set.
    pub closed spec fn protocol(&self) -> Option<MilterProtocol> {
        self.protocol
    }

    /// Creates a Milter from the MilterBuilder configuration.
    pub fn build(self) -> (r: Milter<'a, H>)
        ensures
            r.protocol_bits() == match self.protocol() {
                Some(p) => p@,
                None => 0,
            },
    {
        Milter::new(self.message_handler, self.protocol)
    }

    /// Creates a new MilterBuilder with a given MessageHandler.
    ///
    /// The MessageHandler is passed as a mutable borrow so that the user of
    /// the milter can keep and use state inside it.
    pub fn new(message_handler: &'a mut H) -> (r: Self)
        ensures
            r.protocol() is None,
    {
        Self { message_handler, protocol: None }
    }

    /// Defines the protocol steps that the MTA is asked to leave out.
    pub fn set_protocol(self, protocol: MilterProtocol) -> (r: Self)
        ensures
            r.protocol() == Some(protocol),
    {
        Self { message_handler: self.message_handler, protocol: Some(protocol) }
    }
}

} // verus!
