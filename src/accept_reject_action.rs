//! The answers that a filter gives to the steps of a message.
use vstd::prelude::*;

verus! {

/// Defines the accept/reject actions that the milter returns for each step
/// during the processing flow.
#[derive(Debug, Clone, Copy, PartialEq, Eq, Structural)]
pub enum AcceptRejectAction {
    /// Accept the message without further processing
    Accept,
    /// Continue processing the message
    Continue,
    /// Silently discard the message without further processing
    Discard,
    /// Reject the message without further processing
    Reject,
    /// Temporarily fail without further processing
    Tempfail,
}

impl AcceptRejectAction {
    /// The identifier byte of the response frame for this action.
    pub open spec fn tag(self) -> u8 {
        match self {
            AcceptRejectAction::Accept => 0x61,
            AcceptRejectAction::Continue => 0x63,
            AcceptRejectAction::Discard => 0x64,
            AcceptRejectAction::Reject => 0x72,
            AcceptRejectAction::Tempfail => 0x74,
        }
    }

    /// The identifier byte of the response frame for this action.
    pub fn identifier(self) -> (r: u8)
        ensures
            r == self.tag(),
    {
        match self {
            AcceptRejectAction::Accept => 0x61,
            AcceptRejectAction::Continue => 0x63,
            AcceptRejectAction::Discard => 0x64,
            AcceptRejectAction::Reject => 0x72,
            AcceptRejectAction::Tempfail => 0x74,
        }
    }

    /// The action whose response frame carries the identifier byte `t`.
    pub open spec fn from_tag(t: u8) -> Option<AcceptRejectAction> {
        if t == 0x61 {
            Some(AcceptRejectAction::Accept)
        } else if t == 0x63 {
            Some(AcceptRejectAction::Continue)
        } else if t == 0x64 {
            Some(AcceptRejectAction::Discard)
        } else if t == 0x72 {
            Some(AcceptRejectAction::Reject)
        } else if t == 0x74 {
            Some(AcceptRejectAction::Tempfail)
        } else {
            None
        }
    }
}

} // verus!
