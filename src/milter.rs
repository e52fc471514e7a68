//! The per-frame decisions of a filter session.
use vstd::prelude::*;

use crate::accept_reject_action::AcceptRejectAction;
use crate::message_handler::MessageHandler;
use crate::milter_message::{
    action_frame, family_of, lemma_nul_index_is, option_negotiation_frame, parse_message,
    DecodeFailure, MessageModel, MilterMessage, MilterProtocol, ResponseMessage, ID_ABORT, ID_BODY,
    ID_CONNECT, ID_END_OF_BODY, ID_END_OF_HEADER, ID_HEADER, ID_HELO, ID_MACRO, ID_MAIL,
    ID_OPTNEG, ID_QUIT, ID_RECIPIENT,
};
use crate::round_trip::{be16_bytes, nul_free};

verus! {

/// A filter session: it decodes each frame that the MTA sends, hands the
/// command to the `MessageHandler`, and gives back the response to send.
///
/// Also holds the `MessageHandler`.
pub struct Milter<'a, H: MessageHandler> {
    message_handler: &'a mut H,
    protocol: Option<MilterProtocol>,
}

/// What a session answers to one frame payload: the response to send, if
/// any, and whether the connection stays open.
pub open spec fn answers(
    payload: Seq<u8>,
    protocol_bits: u32,
    response: Option<Seq<u8>>,
    keep_open: bool,
) -> bool {
    match parse_message(payload) {
        Err(_) => response == Some(action_frame(AcceptRejectAction::Continue)) && keep_open,
        Ok(MessageModel::QuitCommunication) => response is None && !keep_open,
        Ok(MessageModel::AbortFilterChecks) => response is None && keep_open,
        Ok(MessageModel::DefineMacros { .. }) => response is None && keep_open,
        Ok(MessageModel::OptionNegotiation { version, actions, .. }) => response == Some(
            option_negotiation_frame(version, actions, protocol_bits),
        ) && keep_open,
        Ok(_) => keep_open && exists|a: AcceptRejectAction| response == Some(action_frame(a)),
    }
}

impl<'a, H: MessageHandler> Milter<'a, H> {
    /// The protocol bits that the filter gives in option negotiation: those
    /// it was configured with, or none.
    pub closed spec fn protocol_bits(&self) -> u32 {
        match self.protocol {
            Some(p) => p@,
            None => 0,
        }
    }

    /// A session with a handler and, optionally, the protocol steps that the
    /// filter asks the MTA to leave out.
    pub fn new(message_handler: &'a mut H, protocol: Option<MilterProtocol>) -> (r: Self)
        ensures
            r.protocol_bits() == match protocol {
                Some(p) => p@,
                None => 0,
            },
    {
        Self { message_handler, protocol }
    }

    /// Handles the payload of one frame. The response is what to send back
    /// before the next frame is read; the flag says whether the connection
    /// stays open. A payload that does not decode is answered with Continue,
    /// and the session goes on.
    pub fn handle_message(&mut self, buffer: &[u8]) -> (r: (Option<ResponseMessage>, bool))
        ensures
            final(self).protocol_bits() == old(self).protocol_bits(),
            answers(
                buffer@,
                old(self).protocol_bits(),
                match r.0 {
                    Some(m) => Some(m@),
                    None => None,
                },
                r.1,
            ),
    {
        match MilterMessage::try_from(buffer) {
            Ok(message) => {
                match message {
                    MilterMessage::AbortFilterChecks => {
                        self.message_handler.abort_filter_checks();
                        (None, true)
                    },
                    MilterMessage::BodyChunk { value } => {
                        let action = self.message_handler.body_chunk(value.as_str());
                        (Some(ResponseMessage::from(action)), true)
                    },
                    MilterMessage::ConnectionInformation { hostname, family, port, address } => {
                        let action = self.message_handler.connection(
                            hostname.as_str(),
                            &family,
                            &port,
                            address.as_str(),
                        );
                        (Some(ResponseMessage::from(action)), true)
                    },
                    MilterMessage::DefineMacros { cmdcode, macros } => {
                        self.message_handler.define_macros(&cmdcode, macros);
                        (None, true)
                    },
                    MilterMessage::EndOfBody => {
                        let action = self.message_handler.end_of_body();
                        (Some(ResponseMessage::from(action)), true)
                    },
                    MilterMessage::EndOfHeader => {
                        let action = self.message_handler.end_of_header();
                        (Some(ResponseMessage::from(action)), true)
                    },
                    MilterMessage::Header { name, value } => {
                        let action = self.message_handler.header(name.as_str(), value.as_str());
                        (Some(ResponseMessage::from(action)), true)
                    },
                    MilterMessage::Helo { msg } => {
                        let action = self.message_handler.helo(msg.as_str());
                        (Some(ResponseMessage::from(action)), true)
                    },
                    MilterMessage::MailFrom { sender, args } => {
                        let action = self.message_handler.mail_from(
                            sender.as_str(),
                            args.as_slice(),
                        );
                        (Some(ResponseMessage::from(action)), true)
                    },
                    MilterMessage::OptionNegotiation { version, actions, protocol: _ } => {
                        let protocol = match &self.protocol {
                            Some(p) => *p,
                            None => MilterProtocol::default(),
                        };
                        (Some(ResponseMessage::option_negotiation(version, actions, &protocol)), true)
                    },
                    MilterMessage::QuitCommunication => (None, false),
                    MilterMessage::RecipientInformation { recipient, args } => {
                        let action = self.message_handler.recipient(
                            recipient.as_str(),
                            args.as_slice(),
                        );
                        (Some(ResponseMessage::from(action)), true)
                    },
                }
            },
            Err(_) => (Some(ResponseMessage::from(AcceptRejectAction::Continue)), true),
        }
    }
}

/// Whether a session answers `payload`, whatever its configuration, with
/// Continue and keeps the connection open, ready for the next frame.
pub open spec fn answered_with_continue(payload: Seq<u8>) -> bool {
    forall|bits: u32, response: Option<Seq<u8>>, keep_open: bool|
        #[trigger] answers(payload, bits, response, keep_open) ==> response == Some(
            action_frame(AcceptRejectAction::Continue),
        ) && keep_open
}

/// A payload whose first byte names no command does not decode, and the
/// session answers it with Continue and stays open.
pub proof fn lemma_unknown_identifier_answered(p: Seq<u8>)
    requires
        p.len() >= 1,
        p[0] != ID_ABORT && p[0] != ID_BODY && p[0] != ID_CONNECT && p[0] != ID_MACRO && p[0]
            != ID_END_OF_BODY && p[0] != ID_HELO && p[0] != ID_HEADER && p[0] != ID_MAIL && p[0]
            != ID_END_OF_HEADER && p[0] != ID_OPTNEG && p[0] != ID_QUIT && p[0] != ID_RECIPIENT,
    ensures
        parse_message(p) == Err::<MessageModel, DecodeFailure>(
            DecodeFailure::UnknownMessageIdentifier(p[0]),
        ),
        answered_with_continue(p),
{
}

/// A connection payload cut off anywhere up to the end of its port does not
/// decode, and the session answers it with Continue and stays open.
pub proof fn lemma_truncated_connection_answered(
    hostname: Seq<u8>,
    family: u8,
    port: u16,
    cut: int,
)
    requires
        nul_free(hostname),
        family_of(family) is Some,
        0 <= cut <= hostname.len() + 4,
    ensures
        parse_message(
            seq![ID_CONNECT] + (hostname + seq![0u8, family] + be16_bytes(port)).take(cut),
        ) is Err,
        answered_with_continue(
            seq![ID_CONNECT] + (hostname + seq![0u8, family] + be16_bytes(port)).take(cut),
        ),
{
    let whole = hostname + seq![0u8, family] + be16_bytes(port);
    let rest = whole.take(cut);
    let p = seq![ID_CONNECT] + rest;
    assert(p.drop_first() =~= rest);
    let h = hostname.len() as int;
    if cut <= h {
        lemma_nul_index_is(rest, cut);
    } else {
        lemma_nul_index_is(rest, h);
    }
}

} // verus!
