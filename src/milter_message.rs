//! The commands of the MTA, their decoding from frame payloads, and the
//! responses of the filter.
use vstd::prelude::*;

use crate::accept_reject_action::AcceptRejectAction;
use crate::header_value::{decode, decoded_header};
use crate::milter_error::MilterError;
use crate::text::{lossy_text, utf8_lossy};
use crate::wire::{be16_value, be32_bytes, be32_value, frame_bytes, read_be32, write_be32};

verus! {

/// A macro defined by the MTA.
#[derive(Debug)]
pub struct MilterMacro {
    /// The name of the macro.
    name: String,
    /// The macro value.
    value: String,
}

impl View for MilterMacro {
    type V = (Seq<char>, Seq<char>);

    closed spec fn view(&self) -> (Seq<char>, Seq<char>) {
        (self.name@, self.value@)
    }
}

impl MilterMacro {
    /// The name of the macro.
    pub fn name(&self) -> (r: &str)
        ensures
            r@ == self@.0,
    {
        self.name.as_str()
    }

    /// The macro value.
    pub fn value(&self) -> (r: &str)
        ensures
            r@ == self@.1,
    {
        self.value.as_str()
    }
}

/// The protocol family used (currently only Inet4 and Inet6 are supported).
#[derive(Debug, Clone, Copy, PartialEq, Eq, Structural)]
pub enum ProtocolFamily {
    /// Unix socket.
    UnixSocket,
    /// IPv4
    Inet4,
    /// IPv6
    Inet6,
}

/// The family byte of a Unix socket, `L`.
pub const FAMILY_UNIX: u8 = 0x4c;

/// The family byte of IPv4, `4`.
pub const FAMILY_INET4: u8 = 0x34;

/// The family byte of IPv6, `6`.
pub const FAMILY_INET6: u8 = 0x36;

/// The protocol family that a family byte stands for.
pub open spec fn family_of(b: u8) -> Option<ProtocolFamily> {
    if b == FAMILY_UNIX {
        Some(ProtocolFamily::UnixSocket)
    } else if b == FAMILY_INET4 {
        Some(ProtocolFamily::Inet4)
    } else if b == FAMILY_INET6 {
        Some(ProtocolFamily::Inet6)
    } else {
        None
    }
}

/// The bits of the action capabilities that the protocol defines.
pub const ACTION_BITS: u32 = 0x3f;

/// The bits of the protocol step skips that the protocol defines.
pub const PROTOCOL_BITS: u32 = 0x7f;

/// The message changes that a filter may ask for, one bit each.
#[derive(Debug, Clone, Copy, PartialEq, Eq, Structural)]
pub struct MilterActions {
    bits: u32,
}

impl View for MilterActions {
    type V = u32;

    closed spec fn view(&self) -> u32 {
        self.bits
    }
}

impl MilterActions {
    /// The bit asking to add headers.
    pub const ADD_HEADERS: u32 = 1;

    /// The bit asking to change the body.
    pub const CHANGE_BODY: u32 = 2;

    /// The bit asking to add recipients.
    pub const ADD_RECIPIENTS: u32 = 4;

    /// The bit asking to remove recipients.
    pub const REMOVE_RECIPIENTS: u32 = 8;

    /// The bit asking to change headers.
    pub const CHANGE_HEADERS: u32 = 16;

    /// The bit asking to quarantine the message.
    pub const QUARANTINE: u32 = 32;

    /// The set of the defined bits among `bits`; the others are dropped.
    pub fn from_bits_truncate(bits: u32) -> (r: MilterActions)
        ensures
            r@ == bits & ACTION_BITS,
    {
        MilterActions { bits: bits & ACTION_BITS }
    }

    /// The bits of the set.
    pub fn bits(&self) -> (r: u32)
        ensures
            r == self@,
    {
        self.bits
    }

    /// The set of the bits that are in either set.
    pub fn union(self, other: MilterActions) -> (r: MilterActions)
        ensures
            r@ == self@ | other@,
    {
        MilterActions { bits: self.bits | other.bits }
    }
}

/// The steps of the protocol that the filter asks the MTA to leave out, one
/// bit each. The default, no bit set, asks for every step.
#[derive(Debug, Clone, Copy, PartialEq, Eq, Structural)]
pub struct MilterProtocol {
    bits: u32,
}

impl View for MilterProtocol {
    type V = u32;

    closed spec fn view(&self) -> u32 {
        self.bits
    }
}

impl MilterProtocol {
    /// The bit leaving out the connection information.
    pub const NO_CONNECT: u32 = 1;

    /// The bit leaving out the HELO step.
    pub const NO_HELO: u32 = 2;

    /// The bit leaving out the envelope sender.
    pub const NO_MAIL: u32 = 4;

    /// The bit leaving out the envelope recipients.
    pub const NO_RECIPIENT: u32 = 8;

    /// The bit leaving out the body.
    pub const NO_BODY: u32 = 16;

    /// The bit leaving out the headers.
    pub const NO_HEADER: u32 = 32;

    /// The bit leaving out the end of the headers.
    pub const NO_EOH: u32 = 64;

    /// The set of the defined bits among `bits`; the others are dropped.
    pub fn from_bits_truncate(bits: u32) -> (r: MilterProtocol)
        ensures
            r@ == bits & PROTOCOL_BITS,
    {
        MilterProtocol { bits: bits & PROTOCOL_BITS }
    }

    /// The bits of the set.
    pub fn bits(&self) -> (r: u32)
        ensures
            r == self@,
    {
        self.bits
    }

    /// The set of the bits that are in either set.
    pub fn union(self, other: MilterProtocol) -> (r: MilterProtocol)
        ensures
            r@ == self@ | other@,
    {
        MilterProtocol { bits: self.bits | other.bits }
    }
}

impl Default for MilterProtocol {
    /// No step left out.
    fn default() -> (r: MilterProtocol)
        ensures
            r@ == 0,
    {
        MilterProtocol { bits: 0 }
    }
}

/// The identifier of `AbortFilterChecks`, `A`.
pub const ID_ABORT: u8 = 0x41;

/// The identifier of `BodyChunk`, `B`.
pub const ID_BODY: u8 = 0x42;

/// The identifier of `ConnectionInformation`, `C`.
pub const ID_CONNECT: u8 = 0x43;

/// The identifier of `DefineMacros`, `D`.
pub const ID_MACRO: u8 = 0x44;

/// The identifier of `EndOfBody`, `E`.
pub const ID_END_OF_BODY: u8 = 0x45;

/// The identifier of `Helo`, `H`.
pub const ID_HELO: u8 = 0x48;

/// The identifier of `Header`, `L`.
pub const ID_HEADER: u8 = 0x4c;

/// The identifier of `MailFrom`, `M`.
pub const ID_MAIL: u8 = 0x4d;

/// The identifier of `EndOfHeader`, `N`.
pub const ID_END_OF_HEADER: u8 = 0x4e;

/// The identifier of `OptionNegotiation`, `O`, for the command and its reply.
pub const ID_OPTNEG: u8 = 0x4f;

/// The identifier of `QuitCommunication`, `Q`.
pub const ID_QUIT: u8 = 0x51;

/// The identifier of `RecipientInformation`, `R`.
pub const ID_RECIPIENT: u8 = 0x52;

/// A command from the MTA, decoded from the payload of one frame.
#[derive(Debug)]
pub enum MilterMessage {
    AbortFilterChecks,
    BodyChunk { value: String },
    ConnectionInformation { hostname: String, family: ProtocolFamily, port: u16, address: String },
    DefineMacros { cmdcode: char, macros: Vec<MilterMacro> },
    EndOfBody,
    EndOfHeader,
    Header { name: String, value: String },
    Helo { msg: String },
    MailFrom { sender: String, args: Vec<String> },
    OptionNegotiation { version: u32, actions: MilterActions, protocol: MilterProtocol },
    QuitCommunication,
    RecipientInformation { recipient: String, args: Vec<String> },
}

/// A command as its fields' values: texts as character sequences, flag sets
/// as their bits.
pub enum MessageModel {
    AbortFilterChecks,
    BodyChunk { value: Seq<char> },
    ConnectionInformation {
        hostname: Seq<char>,
        family: ProtocolFamily,
        port: u16,
        address: Seq<char>,
    },
    DefineMacros { cmdcode: char, macros: Seq<(Seq<char>, Seq<char>)> },
    EndOfBody,
    EndOfHeader,
    Header { name: Seq<char>, value: Seq<char> },
    Helo { msg: Seq<char> },
    MailFrom { sender: Seq<char>, args: Seq<Seq<char>> },
    OptionNegotiation { version: u32, actions: u32, protocol: u32 },
    QuitCommunication,
    RecipientInformation { recipient: Seq<char>, args: Seq<Seq<char>> },
}

impl View for MilterMessage {
    type V = MessageModel;

    open spec fn view(&self) -> MessageModel {
        match *self {
            MilterMessage::AbortFilterChecks => MessageModel::AbortFilterChecks,
            MilterMessage::BodyChunk { value } => MessageModel::BodyChunk { value: value@ },
            MilterMessage::ConnectionInformation { hostname, family, port, address } => {
                MessageModel::ConnectionInformation {
                    hostname: hostname@,
                    family,
                    port,
                    address: address@,
                }
            },
            MilterMessage::DefineMacros { cmdcode, macros } => MessageModel::DefineMacros {
                cmdcode,
                macros: macros@.map_values(|m: MilterMacro| m@),
            },
            MilterMessage::EndOfBody => MessageModel::EndOfBody,
            MilterMessage::EndOfHeader => MessageModel::EndOfHeader,
            MilterMessage::Header { name, value } => MessageModel::Header {
                name: name@,
                value: value@,
            },
            MilterMessage::Helo { msg } => MessageModel::Helo { msg: msg@ },
            MilterMessage::MailFrom { sender, args } => MessageModel::MailFrom {
                sender: sender@,
                args: args@.map_values(|a: String| a@),
            },
            MilterMessage::OptionNegotiation { version, actions, protocol } => {
                MessageModel::OptionNegotiation { version, actions: actions@, protocol: protocol@ }
            },
            MilterMessage::QuitCommunication => MessageModel::QuitCommunication,
            MilterMessage::RecipientInformation { recipient, args } => {
                MessageModel::RecipientInformation {
                    recipient: recipient@,
                    args: args@.map_values(|a: String| a@),
                }
            },
        }
    }
}

/// Why a payload does not decode to a command.
pub enum DecodeFailure {
    /// A field or a delimiter is missing, or a fixed-size payload has
    /// another size.
    IncompleteMessage,
    /// The payload is empty.
    MissingMessageIdentifier,
    /// The identifier byte names no command of this shape.
    UnknownMessageIdentifier(u8),
    /// A fixed-width number is cut short.
    MalformedNumericField,
}

/// Whether `e` is the error that reports `f`.
pub open spec fn reports(e: MilterError, f: DecodeFailure) -> bool {
    match f {
        DecodeFailure::IncompleteMessage => e is IncompleteMessage,
        DecodeFailure::MissingMessageIdentifier => e is MissingMessageIdentifier,
        DecodeFailure::UnknownMessageIdentifier(b) => e matches MilterError::UnknownMessageIdentifier(
            c,
        ) && c == b as char,
        DecodeFailure::MalformedNumericField => e is TryFromSliceError,
    }
}

/// The position of the first NUL byte of `s`, or its length if it has none.
pub open spec fn nul_index(s: Seq<u8>) -> int
    decreases s.len(),
{
    if s.len() == 0 || s[0] == 0 {
        0
    } else {
        1 + nul_index(s.drop_first())
    }
}

/// The fields of `s` between NUL bytes: one more than there are NUL bytes.
pub open spec fn split_nul(s: Seq<u8>) -> Seq<Seq<u8>>
    decreases s.len(),
{
    let i = nul_index(s);
    if 0 <= i < s.len() {
        seq![s.subrange(0, i)] + split_nul(s.subrange(i + 1, s.len() as int))
    } else {
        seq![s]
    }
}

/// The fields of `s` between NUL bytes, each read as lossy UTF-8.
pub open spec fn text_fields(s: Seq<u8>) -> Seq<Seq<char>> {
    split_nul(s).map_values(|f: Seq<u8>| utf8_lossy(f))
}

/// The macros of a `DefineMacros` payload: its fields taken as pairs of a
/// name and a value.
pub open spec fn macro_pairs(t: Seq<Seq<char>>) -> Seq<(Seq<char>, Seq<char>)> {
    Seq::new(t.len() / 2, |k: int| (t[2 * k], t[2 * k + 1]))
}

/// The `ConnectionInformation` that the bytes after its identifier give:
/// hostname, NUL, family byte, two-byte port, address, NUL.
pub open spec fn parse_connection(rest: Seq<u8>) -> Result<MessageModel, DecodeFailure> {
    let h = nul_index(rest);
    if h + 1 >= rest.len() || family_of(rest[h + 1]) is None {
        Err(DecodeFailure::IncompleteMessage)
    } else if rest.len() < h + 4 {
        Err(DecodeFailure::MalformedNumericField)
    } else if rest.len() == h + 4 {
        Err(DecodeFailure::IncompleteMessage)
    } else {
        Ok(
            MessageModel::ConnectionInformation {
                hostname: utf8_lossy(rest.subrange(0, h)),
                family: family_of(rest[h + 1])->0,
                port: be16_value(rest.subrange(h + 2, h + 4)) as u16,
                address: utf8_lossy(rest.subrange(h + 4, rest.len() - 1)),
            },
        )
    }
}

/// The `DefineMacros` that the bytes after its command code give: names and
/// values alternating, each ended by a NUL.
pub open spec fn parse_macros(cmdcode: u8, rest: Seq<u8>) -> Result<MessageModel, DecodeFailure> {
    if rest.len() == 0 {
        Ok(MessageModel::DefineMacros { cmdcode: cmdcode as char, macros: Seq::empty() })
    } else {
        let t = text_fields(rest.drop_last());
        if t.len() % 2 != 0 {
            Err(DecodeFailure::IncompleteMessage)
        } else {
            Ok(MessageModel::DefineMacros { cmdcode: cmdcode as char, macros: macro_pairs(t) })
        }
    }
}

/// The command that a frame payload holds, or why it holds none.
pub open spec fn parse_message(p: Seq<u8>) -> Result<MessageModel, DecodeFailure> {
    if p.len() == 0 {
        Err(DecodeFailure::MissingMessageIdentifier)
    } else {
        let id = p[0];
        let rest = p.drop_first();
        if id == ID_ABORT && rest.len() == 0 {
            Ok(MessageModel::AbortFilterChecks)
        } else if id == ID_BODY {
            Ok(MessageModel::BodyChunk { value: utf8_lossy(rest) })
        } else if id == ID_CONNECT {
            parse_connection(rest)
        } else if id == ID_MACRO && rest.len() >= 1 {
            parse_macros(rest[0], rest.drop_first())
        } else if id == ID_END_OF_BODY && rest.len() == 0 {
            Ok(MessageModel::EndOfBody)
        } else if id == ID_HELO {
            if rest.len() == 0 {
                Err(DecodeFailure::IncompleteMessage)
            } else {
                Ok(MessageModel::Helo { msg: utf8_lossy(rest.drop_last()) })
            }
        } else if id == ID_HEADER {
            let t = text_fields(rest);
            if t.len() < 2 {
                Err(DecodeFailure::IncompleteMessage)
            } else {
                Ok(MessageModel::Header { name: t[0], value: decoded_header(t[1]) })
            }
        } else if id == ID_MAIL {
            let t = text_fields(rest);
            Ok(MessageModel::MailFrom { sender: t[0], args: t.drop_first() })
        } else if id == ID_END_OF_HEADER && rest.len() == 0 {
            Ok(MessageModel::EndOfHeader)
        } else if id == ID_OPTNEG && rest.len() == 12 {
            Ok(
                MessageModel::OptionNegotiation {
                    version: be32_value(rest) as u32,
                    actions: (be32_value(rest.subrange(4, 8)) as u32) & ACTION_BITS,
                    protocol: (be32_value(rest.subrange(8, 12)) as u32) & PROTOCOL_BITS,
                },
            )
        } else if id == ID_QUIT && rest.len() == 0 {
            Ok(MessageModel::QuitCommunication)
        } else if id == ID_RECIPIENT {
            let t = text_fields(rest);
            Ok(MessageModel::RecipientInformation { recipient: t[0], args: t.drop_first() })
        } else {
            Err(DecodeFailure::UnknownMessageIdentifier(id))
        }
    }
}

pub(crate) proof fn lemma_nul_index_bounds(s: Seq<u8>)
    ensures
        0 <= nul_index(s) <= s.len(),
        forall|k: int| 0 <= k < nul_index(s) ==> s[k] != 0,
        nul_index(s) < s.len() ==> s[nul_index(s)] == 0,
    decreases s.len(),
{
    if s.len() > 0 && s[0] != 0 {
        lemma_nul_index_bounds(s.drop_first());
        assert forall|k: int| 0 <= k < nul_index(s) implies s[k] != 0 by {
            if k > 0 {
                assert(s[k] == s.drop_first()[k - 1]);
            }
        }
    }
}

pub(crate) proof fn lemma_nul_index_is(s: Seq<u8>, j: int)
    requires
        0 <= j <= s.len(),
        forall|k: int| 0 <= k < j ==> s[k] != 0,
        j < s.len() ==> s[j] == 0,
    ensures
        nul_index(s) == j,
    decreases s.len(),
{
    if j > 0 {
        assert forall|k: int| 0 <= k < j - 1 implies s.drop_first()[k] != 0 by {
            assert(s.drop_first()[k] == s[k + 1]);
        }
        lemma_nul_index_is(s.drop_first(), j - 1);
    }
}

/// Every field list has a first field.
proof fn lemma_split_nul_nonempty(s: Seq<u8>)
    ensures
        split_nul(s).len() >= 1,
    decreases s.len(),
{
    lemma_nul_index_bounds(s);
}

/// The position of the first NUL byte of `s` at or after `from`, or the
/// length of `s`.
fn find_nul(s: &[u8], from: usize) -> (r: usize)
    requires
        from <= s@.len(),
    ensures
        r == from + nul_index(s@.subrange(from as int, s@.len() as int)),
        from <= r <= s@.len(),
{
    let mut k = from;
    while k < s.len() && s[k] != 0
        invariant
            from <= k <= s@.len(),
            forall|j: int| from <= j < k ==> s@[j] != 0,
        decreases s@.len() - k,
    {
        k += 1;
    }
    proof {
        lemma_nul_index_is(s@.subrange(from as int, s@.len() as int), k - from);
    }
    k
}

/// The fields of `s` between NUL bytes, each read as lossy UTF-8.
fn split_text_fields(s: &[u8]) -> (r: Vec<String>)
    ensures
        r@.map_values(|t: String| t@) == text_fields(s@),
{
    let mut fields: Vec<String> = Vec::new();
    let mut start: usize = 0;
    assert(s@.subrange(0, s@.len() as int) =~= s@);
    assert(fields@.map_values(|t: String| t@) + text_fields(s@) =~= text_fields(s@));
    loop
        invariant_except_break
            start <= s@.len(),
            split_nul(s@).map_values(|f: Seq<u8>| utf8_lossy(f)) == fields@.map_values(
                |t: String| t@,
            ) + split_nul(s@.subrange(start as int, s@.len() as int)).map_values(
                |f: Seq<u8>| utf8_lossy(f),
            ),
        ensures
            fields@.map_values(|t: String| t@) == text_fields(s@),
        decreases s@.len() - start,
    {
        let ghost rest = s@.subrange(start as int, s@.len() as int);
        let ghost before = fields@.map_values(|t: String| t@);
        let j = find_nul(s, start);
        proof {
            lemma_nul_index_bounds(rest);
        }
        let piece = &s[start..j];
        assert(piece@ =~= rest.subrange(0, j - start));
        let field = lossy_text(piece);
        fields.push(field);
        assert(fields@.map_values(|t: String| t@) =~= before.push(utf8_lossy(rest.subrange(0, j - start))));
        if j == s.len() {
            assert(split_nul(rest) =~= seq![rest]);
            assert(rest.subrange(0, j - start) =~= rest);
            assert(split_nul(rest).map_values(|f: Seq<u8>| utf8_lossy(f)) =~= seq![utf8_lossy(rest)]);
            assert(fields@.map_values(|t: String| t@) =~= before + seq![utf8_lossy(rest)]);
            break ;
        }
        assert(rest.subrange(j - start + 1, rest.len() as int) =~= s@.subrange(j + 1, s@.len() as int));
        assert(split_nul(rest).map_values(|f: Seq<u8>| utf8_lossy(f)) =~= seq![
            utf8_lossy(rest.subrange(0, j - start)),
        ] + split_nul(s@.subrange(j + 1, s@.len() as int)).map_values(|f: Seq<u8>| utf8_lossy(f)));
        start = j + 1;
    }
    fields
}

/// Relies on `<[u8; 2] as TryFrom<&[u8]>>::try_from`: it succeeds exactly on
/// a slice of two bytes, which it copies.
#[verifier::external_body]
fn two_bytes(b: &[u8]) -> (r: Result<[u8; 2], core::array::TryFromSliceError>)
    ensures
        r is Ok <==> b@.len() == 2,
        r matches Ok(a) ==> a@ == b@,
{
    <[u8; 2]>::try_from(b)
}

/// Decodes the bytes that follow the identifier of a
/// `ConnectionInformation`.
fn connection_information(rest: &[u8]) -> (r: Result<MilterMessage, MilterError>)
    ensures
        match parse_connection(rest@) {
            Ok(m) => r matches Ok(x) && x@ == m,
            Err(f) => r matches Err(e) && reports(e, f),
        },
{
    let h = find_nul(rest, 0);
    proof {
        lemma_nul_index_bounds(rest@);
        assert(rest@.subrange(0, rest@.len() as int) =~= rest@);
    }
    if rest.len() - h < 2 {
        return Err(MilterError::IncompleteMessage);
    }
    let family_byte = rest[h + 1];
    let family = if family_byte == FAMILY_UNIX {
        ProtocolFamily::UnixSocket
    } else if family_byte == FAMILY_INET4 {
        ProtocolFamily::Inet4
    } else if family_byte == FAMILY_INET6 {
        ProtocolFamily::Inet6
    } else {
        return Err(MilterError::IncompleteMessage);
    };
    let port_end = if rest.len() - h < 4 {
        rest.len()
    } else {
        h + 4
    };
    let port_bytes = match two_bytes(&rest[h + 2..port_end]) {
        Ok(a) => a,
        Err(e) => {
            return Err(MilterError::TryFromSliceError(e));
        },
    };
    if rest.len() - h == 4 {
        return Err(MilterError::IncompleteMessage);
    }
    let port = port_bytes[0] as u16 * 0x100 + port_bytes[1] as u16;
    let hostname = lossy_text(&rest[0..h]);
    let address = lossy_text(&rest[h + 4..rest.len() - 1]);
    Ok(MilterMessage::ConnectionInformation { hostname, family, port, address })
}

/// Decodes the bytes that follow the command code of a `DefineMacros`.
fn define_macros(cmdcode: u8, rest: &[u8]) -> (r: Result<MilterMessage, MilterError>)
    ensures
        match parse_macros(cmdcode, rest@) {
            Ok(m) => r matches Ok(x) && x@ == m,
            Err(f) => r matches Err(e) && reports(e, f),
        },
{
    if rest.len() == 0 {
        let macros: Vec<MilterMacro> = Vec::new();
        assert(macros@.map_values(|m: MilterMacro| m@) =~= Seq::empty());
        return Ok(MilterMessage::DefineMacros { cmdcode: cmdcode as char, macros });
    }
    let body = &rest[0..rest.len() - 1];
    assert(body@ =~= rest@.drop_last());
    let t = split_text_fields(body);
    let ghost tv = t@.map_values(|f: String| f@);
    if t.len() % 2 != 0 {
        return Err(MilterError::IncompleteMessage);
    }
    let mut macros: Vec<MilterMacro> = Vec::new();
    let mut k: usize = 0;
    while k < t.len() / 2
        invariant
            k <= t@.len() / 2,
            tv == t@.map_values(|f: String| f@),
            macros@.map_values(|m: MilterMacro| m@) == macro_pairs(tv).take(k as int),
        decreases t@.len() / 2 - k,
    {
        let ghost before = macros@.map_values(|m: MilterMacro| m@);
        let name = t[2 * k].clone();
        let value = t[2 * k + 1].clone();
        macros.push(MilterMacro { name, value });
        assert(macros@.map_values(|m: MilterMacro| m@) =~= before.push(macro_pairs(tv)[k as int]));
        k += 1;
        assert(macro_pairs(tv).take(k as int) =~= macro_pairs(tv).take(k - 1).push(
            macro_pairs(tv)[k - 1],
        ));
    }
    assert(macro_pairs(tv).take(k as int) =~= macro_pairs(tv));
    Ok(MilterMessage::DefineMacros { cmdcode: cmdcode as char, macros })
}

/// The sender or recipient of a `MailFrom` or `RecipientInformation` and its
/// arguments: the first NUL-separated field and the others.
fn address_and_args(rest: &[u8]) -> (r: (String, Vec<String>))
    ensures
        r.0@ == text_fields(rest@)[0],
        r.1@.map_values(|a: String| a@) == text_fields(rest@).drop_first(),
{
    let mut t = split_text_fields(rest);
    proof {
        lemma_split_nul_nonempty(rest@);
    }
    let ghost all = t@;
    let first = t.remove(0);
    assert(t@.map_values(|a: String| a@) =~= all.map_values(|a: String| a@).drop_first());
    (first, t)
}

impl MilterMessage {
    /// Decodes the payload of one frame into a command.
    pub fn try_from(value: &[u8]) -> (r: Result<MilterMessage, MilterError>)
        ensures
            match parse_message(value@) {
                Ok(m) => r matches Ok(x) && x@ == m,
                Err(f) => r matches Err(e) && reports(e, f),
            },
    {
        if value.len() == 0 {
            return Err(MilterError::MissingMessageIdentifier);
        }
        let id = value[0];
        let rest = &value[1..value.len()];
        assert(rest@ =~= value@.drop_first());
        let n = rest.len();
        if id == ID_ABORT && n == 0 {
            Ok(MilterMessage::AbortFilterChecks)
        } else if id == ID_BODY {
            Ok(MilterMessage::BodyChunk { value: lossy_text(rest) })
        } else if id == ID_CONNECT {
            connection_information(rest)
        } else if id == ID_MACRO && n >= 1 {
            let macros = &rest[1..n];
            assert(macros@ =~= rest@.drop_first());
            define_macros(rest[0], macros)
        } else if id == ID_END_OF_BODY && n == 0 {
            Ok(MilterMessage::EndOfBody)
        } else if id == ID_HELO {
            if n == 0 {
                Err(MilterError::IncompleteMessage)
            } else {
                let msg = &rest[0..n - 1];
                assert(msg@ =~= rest@.drop_last());
                Ok(MilterMessage::Helo { msg: lossy_text(msg) })
            }
        } else if id == ID_HEADER {
            let t = split_text_fields(rest);
            if t.len() < 2 {
                Err(MilterError::IncompleteMessage)
            } else {
                let name = t[0].clone();
                let value = decode(t[1].as_str());
                Ok(MilterMessage::Header { name, value })
            }
        } else if id == ID_MAIL {
            let (sender, args) = address_and_args(rest);
            Ok(MilterMessage::MailFrom { sender, args })
        } else if id == ID_END_OF_HEADER && n == 0 {
            Ok(MilterMessage::EndOfHeader)
        } else if id == ID_OPTNEG && n == 12 {
            let version = read_be32(rest);
            let action_bytes = &rest[4..8];
            let protocol_bytes = &rest[8..12];
            assert(action_bytes@ =~= rest@.subrange(4, 8));
            assert(protocol_bytes@ =~= rest@.subrange(8, 12));
            let actions = MilterActions::from_bits_truncate(read_be32(action_bytes));
            let protocol = MilterProtocol::from_bits_truncate(read_be32(protocol_bytes));
            Ok(MilterMessage::OptionNegotiation { version, actions, protocol })
        } else if id == ID_QUIT && n == 0 {
            Ok(MilterMessage::QuitCommunication)
        } else if id == ID_RECIPIENT {
            let (recipient, args) = address_and_args(rest);
            Ok(MilterMessage::RecipientInformation { recipient, args })
        } else {
            Err(MilterError::UnknownMessageIdentifier(id as char))
        }
    }
}

/// A response to the MTA, as the bytes of its frame.
#[derive(Debug)]
pub struct ResponseMessage {
    content: Vec<u8>,
}

impl View for ResponseMessage {
    type V = Seq<u8>;

    closed spec fn view(&self) -> Seq<u8> {
        self.content@
    }
}

/// The frame that answers with `action`: length 1, then its identifier.
pub open spec fn action_frame(action: AcceptRejectAction) -> Seq<u8> {
    frame_bytes(seq![action.tag()])
}

/// The frame of an option negotiation reply: length 13, `O`, then the
/// version, the action bits and the protocol bits, each as four big-endian
/// bytes.
pub open spec fn option_negotiation_frame(version: u32, actions: u32, protocol: u32) -> Seq<u8> {
    frame_bytes(seq![ID_OPTNEG] + be32_bytes(version) + be32_bytes(actions) + be32_bytes(protocol))
}

impl From<AcceptRejectAction> for ResponseMessage {
    fn from(action: AcceptRejectAction) -> (r: ResponseMessage)
        ensures
            r@ == action_frame(action),
    {
        let mut content: Vec<u8> = Vec::with_capacity(5);
        write_be32(1, &mut content);
        content.push(action.identifier());
        ResponseMessage { content }
    }
}

impl vstd::std_specs::convert::FromSpecImpl<AcceptRejectAction> for ResponseMessage {
    open spec fn obeys_from_spec() -> bool {
        false
    }

    open spec fn from_spec(action: AcceptRejectAction) -> ResponseMessage {
        choose|r: ResponseMessage| r@ == action_frame(action)
    }
}

impl ResponseMessage {
    /// The bytes of the frame.
    pub fn get_content(&self) -> (r: &[u8])
        ensures
            r@ == self@,
    {
        self.content.as_slice()
    }

    /// The reply to an option negotiation: it echoes the MTA's version and
    /// action bits and gives the filter's own protocol bits. It is always
    /// 17 bytes long.
    pub fn option_negotiation(version: u32, actions: MilterActions, protocol: &MilterProtocol) -> (r:
        Self)
        ensures
            r@ == option_negotiation_frame(version, actions@, protocol@),
            r@.len() == 17,
    {
        let mut content: Vec<u8> = Vec::with_capacity(17);
        write_be32(13, &mut content);
        content.push(ID_OPTNEG);
        write_be32(version, &mut content);
        write_be32(actions.bits(), &mut content);
        write_be32(protocol.bits(), &mut content);
        ResponseMessage { content }
    }
}

} // verus!
