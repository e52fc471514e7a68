use rmilter::accept_reject_action::AcceptRejectAction;
use rmilter::milter_error::MilterError;
use rmilter::milter_message::{
    MilterActions, MilterMessage, MilterProtocol, ProtocolFamily, ResponseMessage,
};

#[test]
fn option_negotiation_decodes_all_bits() {
    let bytes = [
        0x00, 0x00, 0x00, 0x0D, 0x4F, 0x00, 0x00, 0x00, 0x02, 0x00, 0x00, 0x00, 0x3F, 0x00, 0x00,
        0x00, 0x7F,
    ];
    let mut assembler = rmilter::framing::FrameAssembler::new();
    let frames = assembler.feed(&bytes);
    assert_eq!(frames.len(), 1);
    match MilterMessage::try_from(&frames[0]) {
        Ok(MilterMessage::OptionNegotiation { version, actions, protocol }) => {
            assert_eq!(version, 2);
            assert_eq!(actions.bits(), 0x3F);
            let all_actions = MilterActions::from_bits_truncate(
                MilterActions::ADD_HEADERS
                    | MilterActions::CHANGE_BODY
                    | MilterActions::ADD_RECIPIENTS
                    | MilterActions::REMOVE_RECIPIENTS
                    | MilterActions::CHANGE_HEADERS
                    | MilterActions::QUARANTINE,
            );
            let all_steps = MilterProtocol::from_bits_truncate(
                MilterProtocol::NO_CONNECT
                    | MilterProtocol::NO_HELO
                    | MilterProtocol::NO_MAIL
                    | MilterProtocol::NO_RECIPIENT
                    | MilterProtocol::NO_BODY
                    | MilterProtocol::NO_HEADER
                    | MilterProtocol::NO_EOH,
            );
            assert_eq!(protocol, all_steps);
            assert_eq!(actions, all_actions);
            assert_eq!(protocol.bits(), 0x7F);
        }
        other => panic!("unexpected {:?}", other),
    }
}

#[test]
fn option_negotiation_drops_undefined_bits() {
    let payload = [b'O', 0, 0, 0, 6, 0xFF, 0xFF, 0xFF, 0xFF, 0xFF, 0xFF, 0xFF, 0xFF];
    match MilterMessage::try_from(&payload) {
        Ok(MilterMessage::OptionNegotiation { version, actions, protocol }) => {
            assert_eq!(version, 6);
            assert_eq!(actions.bits(), 0x3F);
            assert_eq!(protocol.bits(), 0x7F);
        }
        other => panic!("unexpected {:?}", other),
    }
}

#[test]
fn option_negotiation_of_wrong_size_is_unknown() {
    let payload = [b'O', 0, 0, 0, 6];
    assert!(matches!(
        MilterMessage::try_from(&payload),
        Err(MilterError::UnknownMessageIdentifier('O'))
    ));
}

#[test]
fn option_negotiation_reply_is_seventeen_bytes() {
    let protocol = MilterProtocol::from_bits_truncate(MilterProtocol::NO_BODY);
    let reply = ResponseMessage::option_negotiation(
        6,
        MilterActions::from_bits_truncate(0x21),
        &protocol,
    );
    assert_eq!(
        reply.get_content(),
        &[0, 0, 0, 13, b'O', 0, 0, 0, 6, 0, 0, 0, 0x21, 0, 0, 0, 0x10]
    );
    for version in [0u32, 1, 2, 6, u32::MAX] {
        for bits in [0u32, 0x3F, 0xFFFF_FFFF] {
            let reply = ResponseMessage::option_negotiation(
                version,
                MilterActions::from_bits_truncate(bits),
                &MilterProtocol::from_bits_truncate(bits),
            );
            assert_eq!(reply.get_content().len(), 17);
        }
    }
}

#[test]
fn responses_encode_their_identifier() {
    let cases = [
        (AcceptRejectAction::Accept, b'a'),
        (AcceptRejectAction::Continue, b'c'),
        (AcceptRejectAction::Discard, b'd'),
        (AcceptRejectAction::Reject, b'r'),
        (AcceptRejectAction::Tempfail, b't'),
    ];
    for (action, tag) in cases {
        let response = ResponseMessage::from(action);
        assert_eq!(response.get_content(), &[0, 0, 0, 1, tag]);
        let mut assembler = rmilter::framing::FrameAssembler::new();
        assert_eq!(assembler.feed(response.get_content()), vec![vec![tag]]);
    }
}

#[test]
fn empty_payload_misses_identifier() {
    assert!(matches!(
        MilterMessage::try_from(&[]),
        Err(MilterError::MissingMessageIdentifier)
    ));
}

#[test]
fn unknown_identifier_is_reported() {
    assert!(matches!(
        MilterMessage::try_from(b"Zabc"),
        Err(MilterError::UnknownMessageIdentifier('Z'))
    ));
    assert!(matches!(
        MilterMessage::try_from(b"Qextra"),
        Err(MilterError::UnknownMessageIdentifier('Q'))
    ));
}

#[test]
fn bare_commands_decode() {
    assert!(matches!(MilterMessage::try_from(b"A"), Ok(MilterMessage::AbortFilterChecks)));
    assert!(matches!(MilterMessage::try_from(b"E"), Ok(MilterMessage::EndOfBody)));
    assert!(matches!(MilterMessage::try_from(b"N"), Ok(MilterMessage::EndOfHeader)));
    assert!(matches!(MilterMessage::try_from(b"Q"), Ok(MilterMessage::QuitCommunication)));
}

#[test]
fn body_chunk_decodes_lossily() {
    match MilterMessage::try_from(b"Bline one\r\nline \xFFtwo") {
        Ok(MilterMessage::BodyChunk { value }) => assert_eq!(value, "line one\r\nline \u{FFFD}two"),
        other => panic!("unexpected {:?}", other),
    }
}

#[test]
fn helo_drops_trailing_nul() {
    match MilterMessage::try_from(b"Hmail.example.org\0") {
        Ok(MilterMessage::Helo { msg }) => assert_eq!(msg, "mail.example.org"),
        other => panic!("unexpected {:?}", other),
    }
    assert!(matches!(MilterMessage::try_from(b"H"), Err(MilterError::IncompleteMessage)));
}

#[test]
fn connection_information_decodes() {
    match MilterMessage::try_from(b"Cclient.example.org\x004\x01\xBB192.0.2.1\0") {
        Ok(MilterMessage::ConnectionInformation { hostname, family, port, address }) => {
            assert_eq!(hostname, "client.example.org");
            assert_eq!(family, ProtocolFamily::Inet4);
            assert_eq!(port, 443);
            assert_eq!(address, "192.0.2.1");
        }
        other => panic!("unexpected {:?}", other),
    }
    match MilterMessage::try_from(b"Clocal\0L\0\0/run/sock\0") {
        Ok(MilterMessage::ConnectionInformation { family, port, address, .. }) => {
            assert_eq!(family, ProtocolFamily::UnixSocket);
            assert_eq!(port, 0);
            assert_eq!(address, "/run/sock");
        }
        other => panic!("unexpected {:?}", other),
    }
    match MilterMessage::try_from(b"Chost\x006\x00\x19::1\0") {
        Ok(MilterMessage::ConnectionInformation { family, port, .. }) => {
            assert_eq!(family, ProtocolFamily::Inet6);
            assert_eq!(port, 25);
        }
        other => panic!("unexpected {:?}", other),
    }
}

#[test]
fn truncated_connection_information_fails() {
    assert!(matches!(MilterMessage::try_from(b"Chost"), Err(MilterError::IncompleteMessage)));
    assert!(matches!(MilterMessage::try_from(b"Chost\0"), Err(MilterError::IncompleteMessage)));
    assert!(matches!(MilterMessage::try_from(b"Chost\0X\0\x19a\0"), Err(MilterError::IncompleteMessage)));
    assert!(matches!(MilterMessage::try_from(b"Chost\x004"), Err(MilterError::TryFromSliceError(_))));
    assert!(matches!(MilterMessage::try_from(b"Chost\x004\x01"), Err(MilterError::TryFromSliceError(_))));
    assert!(matches!(MilterMessage::try_from(b"Chost\x004\x01\xBB"), Err(MilterError::IncompleteMessage)));
}

#[test]
fn define_macros_decodes_pairs() {
    match MilterMessage::try_from(b"DCj\0mail.example.org\0{daemon_name}\0mta\0") {
        Ok(MilterMessage::DefineMacros { cmdcode, macros }) => {
            assert_eq!(cmdcode, 'C');
            assert_eq!(macros.len(), 2);
            assert_eq!(macros[0].name(), "j");
            assert_eq!(macros[0].value(), "mail.example.org");
            assert_eq!(macros[1].name(), "{daemon_name}");
            assert_eq!(macros[1].value(), "mta");
        }
        other => panic!("unexpected {:?}", other),
    }
    match MilterMessage::try_from(b"DM") {
        Ok(MilterMessage::DefineMacros { cmdcode, macros }) => {
            assert_eq!(cmdcode, 'M');
            assert!(macros.is_empty());
        }
        other => panic!("unexpected {:?}", other),
    }
    assert!(matches!(MilterMessage::try_from(b"DMj\0"), Err(MilterError::IncompleteMessage)));
    assert!(matches!(MilterMessage::try_from(b"D"), Err(MilterError::UnknownMessageIdentifier('D'))));
}

#[test]
fn header_decodes_name_and_value() {
    match MilterMessage::try_from(b"LSubject\0=?utf-8?Q?f=C3=BCr?= you\0") {
        Ok(MilterMessage::Header { name, value }) => {
            assert_eq!(name, "Subject");
            assert_eq!(value, "für you");
        }
        other => panic!("unexpected {:?}", other),
    }
    assert!(matches!(MilterMessage::try_from(b"LSubject"), Err(MilterError::IncompleteMessage)));
}

#[test]
fn mail_from_and_recipient_decode_arguments() {
    match MilterMessage::try_from(b"M<a@example.org>\0SIZE=10\0BODY=8BITMIME") {
        Ok(MilterMessage::MailFrom { sender, args }) => {
            assert_eq!(sender, "<a@example.org>");
            assert_eq!(args, vec!["SIZE=10".to_string(), "BODY=8BITMIME".to_string()]);
        }
        other => panic!("unexpected {:?}", other),
    }
    match MilterMessage::try_from(b"R<b@example.org>") {
        Ok(MilterMessage::RecipientInformation { recipient, args }) => {
            assert_eq!(recipient, "<b@example.org>");
            assert!(args.is_empty());
        }
        other => panic!("unexpected {:?}", other),
    }
    match MilterMessage::try_from(b"R<b@example.org>\0") {
        Ok(MilterMessage::RecipientInformation { args, .. }) => {
            assert_eq!(args, vec![String::new()]);
        }
        other => panic!("unexpected {:?}", other),
    }
}

#[test]
fn errors_describe_themselves() {
    assert_eq!(MilterError::IncompleteMessage.to_string(), "Incomplete message");
    assert_eq!(MilterError::MissingMessageIdentifier.to_string(), "Missing message identifier");
    assert_eq!(
        MilterError::UnknownMessageIdentifier('Z').to_string(),
        "Unknown message identifier: 'Z'"
    );
    let io = std::io::Error::new(std::io::ErrorKind::Other, "peer went away");
    assert_eq!(MilterError::from(io).to_string(), "peer went away");
}
