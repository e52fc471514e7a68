//! The callbacks through which a filter application sees each command.
use vstd::prelude::*;

use crate::accept_reject_action::AcceptRejectAction;
use crate::milter_message::{MilterMacro, ProtocolFamily};

verus! {

/// Implement this trait to define the behavior of your milter application.
///
/// All methods have a default implementation which returns
/// `AcceptRejectAction::Continue` or does nothing. Override any of these
/// methods to implement the desired behavior.
pub trait MessageHandler {
    /// Milter checks for the current message have been aborted (SMFIC_ABORT).
    fn abort_filter_checks(&mut self) {
    }

    /// A body chunk of the incoming email (SMFIC_BODY).
    ///
    /// - `value` contains the value of the body chunk.
    #[allow(unused_variables)]
    fn body_chunk(&mut self, value: &str) -> AcceptRejectAction {
        AcceptRejectAction::Continue
    }

    /// Connection information about the SMTP client (SMFIC_CONNECT).
    ///
    /// - `hostname` is the hostname of the client, `family` its protocol
    ///   family, `port` its port and `address` its address.
    #[allow(unused_variables)]
    fn connection(
        &mut self,
        hostname: &str,
        family: &ProtocolFamily,
        port: &u16,
        address: &str,
    ) -> AcceptRejectAction {
        AcceptRejectAction::Continue
    }

    /// Macros defined by the MTA (SMFIC_MACRO).
    ///
    /// - `cmdcode` is the command that the macros belong to.
    #[allow(unused_variables)]
    fn define_macros(&mut self, cmdcode: &char, macros: Vec<MilterMacro>) {
    }

    /// The end of the body has been reached (SMFIC_BODYEOB).
    fn end_of_body(&mut self) -> AcceptRejectAction {
        AcceptRejectAction::Continue
    }

    /// The end of the headers has been reached (SMFIC_EOH).
    fn end_of_header(&mut self) -> AcceptRejectAction {
        AcceptRejectAction::Continue
    }

    /// A header of the email (SMFIC_HEADER). Encoded words in the value have
    /// been decoded.
    #[allow(unused_variables)]
    fn header(&mut self, name: &str, value: &str) -> AcceptRejectAction {
        AcceptRejectAction::Continue
    }

    /// The HELO or EHLO greeting of the client (SMFIC_HELO).
    #[allow(unused_variables)]
    fn helo(&mut self, msg: &str) -> AcceptRejectAction {
        AcceptRejectAction::Continue
    }

    /// The envelope sender and its ESMTP arguments (SMFIC_MAIL).
    #[allow(unused_variables)]
    fn mail_from(&mut self, address: &str, args: &[String]) -> AcceptRejectAction {
        AcceptRejectAction::Continue
    }

    /// An envelope recipient and its ESMTP arguments (SMFIC_RCPT).
    #[allow(unused_variables)]
    fn recipient(&mut self, recipient: &str, args: &[String]) -> AcceptRejectAction {
        AcceptRejectAction::Continue
    }
}

} // verus!
