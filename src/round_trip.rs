//! Each documented command layout decodes to its fields, and each response
//! frame reads back to its action.
use vstd::prelude::*;

use crate::accept_reject_action::AcceptRejectAction;
use crate::framing::{encode_frames, lemma_split_encoded, split_frames};
use crate::header_value::decoded_header;
use crate::milter_message::{
    action_frame, family_of, lemma_nul_index_is, macro_pairs, parse_message, split_nul, text_fields,
    DecodeFailure, MessageModel, ACTION_BITS, ID_ABORT, ID_BODY, ID_CONNECT, ID_END_OF_BODY,
    ID_END_OF_HEADER, ID_HEADER, ID_HELO, ID_MACRO, ID_MAIL, ID_OPTNEG, ID_QUIT, ID_RECIPIENT,
    PROTOCOL_BITS,
};
use crate::text::utf8_lossy;
use crate::wire::{be32_bytes, be32_value, be16_value, frame_bytes, lemma_be32_round_trip};

verus! {

/// Whether no byte of `s` is NUL.
pub open spec fn nul_free(s: Seq<u8>) -> bool {
    forall|k: int| 0 <= k < s.len() ==> s[k] != 0
}

/// Fields joined with a NUL byte between each two.
pub open spec fn join_nul(fields: Seq<Seq<u8>>) -> Seq<u8>
    decreases fields.len(),
{
    if fields.len() == 0 {
        Seq::empty()
    } else if fields.len() == 1 {
        fields[0]
    } else {
        fields[0] + seq![0u8] + join_nul(fields.drop_first())
    }
}

/// The two big-endian bytes of a 16-bit value.
pub open spec fn be16_bytes(v: u16) -> Seq<u8> {
    seq![(v / 0x100) as u8, (v % 0x100) as u8]
}

/// Splitting joined NUL-free fields at the NUL bytes gives the fields back.
proof fn lemma_split_join(fields: Seq<Seq<u8>>)
    requires
        fields.len() >= 1,
        forall|i: int| 0 <= i < fields.len() ==> nul_free(#[trigger] fields[i]),
    ensures
        split_nul(join_nul(fields)) == fields,
    decreases fields.len(),
{
    let f = fields[0];
    let s = join_nul(fields);
    if fields.len() == 1 {
        lemma_nul_index_is(f, f.len() as int);
        assert(split_nul(s) =~= seq![f]);
    } else {
        let tail = fields.drop_first();
        assert forall|i: int| 0 <= i < tail.len() implies nul_free(#[trigger] tail[i]) by {
            assert(tail[i] == fields[i + 1]);
        }
        lemma_split_join(tail);
        lemma_nul_index_is(s, f.len() as int);
        assert(s.subrange(0, f.len() as int) =~= f);
        assert(s.subrange(f.len() + 1int, s.len() as int) =~= join_nul(tail));
        assert(seq![f] + tail =~= fields);
    }
}

proof fn lemma_text_fields_join(fields: Seq<Seq<u8>>)
    requires
        fields.len() >= 1,
        forall|i: int| 0 <= i < fields.len() ==> nul_free(#[trigger] fields[i]),
    ensures
        text_fields(join_nul(fields)) == fields.map_values(|f: Seq<u8>| utf8_lossy(f)),
{
    lemma_split_join(fields);
}

/// Each response frame holds one payload, the action's identifier byte, and
/// that byte names the same action again.
pub proof fn lemma_response_round_trip(action: AcceptRejectAction)
    ensures
        split_frames(action_frame(action)) == (seq![seq![action.tag()]], Seq::<u8>::empty()),
        AcceptRejectAction::from_tag(action.tag()) == Some(action),
{
    let payload = seq![action.tag()];
    assert(seq![payload].drop_first() =~= Seq::<Seq<u8>>::empty());
    assert(encode_frames(Seq::<Seq<u8>>::empty()) =~= Seq::<u8>::empty());
    assert(encode_frames(seq![payload]) =~= frame_bytes(payload) + Seq::<u8>::empty());
    assert(encode_frames(seq![payload]) =~= action_frame(action));
    lemma_split_encoded(seq![payload]);
}

/// The commands without fields decode from their identifier alone.
pub proof fn lemma_bare_commands_round_trip()
    ensures
        parse_message(seq![ID_ABORT]) == Ok::<MessageModel, DecodeFailure>(
            MessageModel::AbortFilterChecks,
        ),
        parse_message(seq![ID_END_OF_BODY]) == Ok::<MessageModel, DecodeFailure>(
            MessageModel::EndOfBody,
        ),
        parse_message(seq![ID_END_OF_HEADER]) == Ok::<MessageModel, DecodeFailure>(
            MessageModel::EndOfHeader,
        ),
        parse_message(seq![ID_QUIT]) == Ok::<MessageModel, DecodeFailure>(
            MessageModel::QuitCommunication,
        ),
{
}

/// A body chunk decodes to the text of its bytes.
pub proof fn lemma_body_chunk_round_trip(body: Seq<u8>)
    ensures
        parse_message(seq![ID_BODY] + body) == Ok::<MessageModel, DecodeFailure>(
            MessageModel::BodyChunk { value: utf8_lossy(body) },
        ),
{
    assert((seq![ID_BODY] + body).drop_first() =~= body);
}

/// A HELO greeting followed by its NUL decodes to the greeting's text.
pub proof fn lemma_helo_round_trip(msg: Seq<u8>)
    ensures
        parse_message(seq![ID_HELO] + msg + seq![0u8]) == Ok::<MessageModel, DecodeFailure>(
            MessageModel::Helo { msg: utf8_lossy(msg) },
        ),
{
    assert((seq![ID_HELO] + msg + seq![0u8]).drop_first().drop_last() =~= msg);
}

/// A connection payload (hostname, NUL, family byte, two-byte port,
/// address, NUL) decodes to exactly those fields.
pub proof fn lemma_connection_round_trip(
    hostname: Seq<u8>,
    family: u8,
    port: u16,
    address: Seq<u8>,
)
    requires
        nul_free(hostname),
        family_of(family) is Some,
    ensures
        parse_message(
            seq![ID_CONNECT] + hostname + seq![0u8, family] + be16_bytes(port) + address + seq![0u8],
        ) == Ok::<MessageModel, DecodeFailure>(
            MessageModel::ConnectionInformation {
                hostname: utf8_lossy(hostname),
                family: family_of(family)->0,
                port,
                address: utf8_lossy(address),
            },
        ),
{
    let p = seq![ID_CONNECT] + hostname + seq![0u8, family] + be16_bytes(port) + address + seq![
        0u8,
    ];
    let rest = p.drop_first();
    let h = hostname.len() as int;
    lemma_nul_index_is(rest, h);
    assert(rest.subrange(0, h) =~= hostname);
    assert(rest[h + 1] == family);
    assert(rest.subrange(h + 2, h + 4) =~= be16_bytes(port));
    assert(be16_value(be16_bytes(port)) == port) by {
        assert(port == (port / 0x100) * 0x100 + port % 0x100);
    }
    assert(rest.subrange(h + 4, rest.len() - 1) =~= address);
}

/// A header payload (name, NUL, value, NUL) decodes to the name's text and
/// the decoded text of the value.
pub proof fn lemma_header_round_trip(name: Seq<u8>, value: Seq<u8>)
    requires
        nul_free(name),
        nul_free(value),
    ensures
        parse_message(seq![ID_HEADER] + name + seq![0u8] + value + seq![0u8]) == Ok::<
            MessageModel,
            DecodeFailure,
        >(MessageModel::Header { name: utf8_lossy(name), value: decoded_header(utf8_lossy(value)) }),
{
    let fields = seq![name, value, Seq::<u8>::empty()];
    assert(join_nul(fields.drop_first().drop_first()) =~= Seq::<u8>::empty());
    assert(join_nul(fields.drop_first()) =~= value + seq![0u8]) by {
        assert(fields.drop_first().drop_first() =~= seq![Seq::<u8>::empty()]);
    }
    assert(join_nul(fields) =~= name + seq![0u8] + value + seq![0u8]);
    assert((seq![ID_HEADER] + name + seq![0u8] + value + seq![0u8]).drop_first() =~= join_nul(
        fields,
    ));
    assert(nul_free(Seq::<u8>::empty()));
    lemma_text_fields_join(fields);
}

/// A sender or recipient payload (address, then each argument after a NUL)
/// decodes to the address's text and the arguments' texts.
pub proof fn lemma_mail_round_trip(fields: Seq<Seq<u8>>)
    requires
        fields.len() >= 1,
        forall|i: int| 0 <= i < fields.len() ==> nul_free(#[trigger] fields[i]),
    ensures
        parse_message(seq![ID_MAIL] + join_nul(fields)) == Ok::<MessageModel, DecodeFailure>(
            MessageModel::MailFrom {
                sender: utf8_lossy(fields[0]),
                args: fields.drop_first().map_values(|f: Seq<u8>| utf8_lossy(f)),
            },
        ),
        parse_message(seq![ID_RECIPIENT] + join_nul(fields)) == Ok::<MessageModel, DecodeFailure>(
            MessageModel::RecipientInformation {
                recipient: utf8_lossy(fields[0]),
                args: fields.drop_first().map_values(|f: Seq<u8>| utf8_lossy(f)),
            },
        ),
{
    assert((seq![ID_MAIL] + join_nul(fields)).drop_first() =~= join_nul(fields));
    assert((seq![ID_RECIPIENT] + join_nul(fields)).drop_first() =~= join_nul(fields));
    lemma_text_fields_join(fields);
    assert(fields.map_values(|f: Seq<u8>| utf8_lossy(f)).drop_first() =~= fields.drop_first().map_values(
        |f: Seq<u8>| utf8_lossy(f),
    ));
}

/// A macro payload (command code, then names and values alternating, each
/// ended by a NUL) decodes to the command code and the name-value pairs.
pub proof fn lemma_macros_round_trip(cmdcode: u8, fields: Seq<Seq<u8>>)
    requires
        fields.len() >= 2,
        fields.len() % 2 == 0,
        forall|i: int| 0 <= i < fields.len() ==> nul_free(#[trigger] fields[i]),
    ensures
        parse_message(seq![ID_MACRO, cmdcode] + join_nul(fields) + seq![0u8]) == Ok::<
            MessageModel,
            DecodeFailure,
        >(
            MessageModel::DefineMacros {
                cmdcode: cmdcode as char,
                macros: Seq::new(
                    fields.len() / 2,
                    |k: int| (utf8_lossy(fields[2 * k]), utf8_lossy(fields[2 * k + 1])),
                ),
            },
        ),
{
    let p = seq![ID_MACRO, cmdcode] + join_nul(fields) + seq![0u8];
    assert(p.drop_first().drop_first().drop_last() =~= join_nul(fields));
    assert(p.drop_first()[0] == cmdcode);
    lemma_text_fields_join(fields);
    let t = fields.map_values(|f: Seq<u8>| utf8_lossy(f));
    assert(macro_pairs(t) =~= Seq::new(
        fields.len() / 2,
        |k: int| (utf8_lossy(fields[2 * k]), utf8_lossy(fields[2 * k + 1])),
    ));
}

/// An option negotiation payload decodes to the version and to the defined
/// bits of the action and protocol sets.
pub proof fn lemma_option_negotiation_round_trip(version: u32, actions: u32, protocol: u32)
    ensures
        parse_message(
            seq![ID_OPTNEG] + be32_bytes(version) + be32_bytes(actions) + be32_bytes(protocol),
        ) == Ok::<MessageModel, DecodeFailure>(
            MessageModel::OptionNegotiation {
                version,
                actions: actions & ACTION_BITS,
                protocol: protocol & PROTOCOL_BITS,
            },
        ),
{
    let rest = be32_bytes(version) + be32_bytes(actions) + be32_bytes(protocol);
    lemma_be32_round_trip(version);
    lemma_be32_round_trip(actions);
    lemma_be32_round_trip(protocol);
    assert((seq![ID_OPTNEG] + rest).drop_first() =~= rest);
    assert(rest.subrange(0, 4) =~= be32_bytes(version));
    assert(rest.subrange(4, 8) =~= be32_bytes(actions));
    assert(rest.subrange(8, 12) =~= be32_bytes(protocol));
    assert(be32_value(rest) == be32_value(be32_bytes(version)));
}

} // verus!
