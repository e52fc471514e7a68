use rmilter::header_value::decode;
use rmilter::milter_message::{MilterActions, MilterProtocol};

#[test]
fn create_milter_actions_add_recipients() {
    let x: [u8; 4] = [0, 0, 0, 4];
    let res = MilterActions::from_bits_truncate(u32::from_be_bytes(x));
    let comp = MilterActions::from_bits_truncate(MilterActions::ADD_RECIPIENTS);

    assert_eq!(comp, res);
}

#[test]
fn create_milter_actions_add_headers_and_quarantine() {
    let x: [u8; 4] = [0, 0, 0, 33];
    let res = MilterActions::from_bits_truncate(u32::from_be_bytes(x));
    let comp =
        MilterActions::from_bits_truncate(MilterActions::ADD_HEADERS | MilterActions::QUARANTINE);

    assert_eq!(comp, res);
}

#[test]
fn create_milter_protocol_no_mail() {
    let x: [u8; 4] = [0, 0, 0, 4];
    let res = MilterProtocol::from_bits_truncate(u32::from_be_bytes(x));
    let comp = MilterProtocol::from_bits_truncate(MilterProtocol::NO_MAIL);

    assert_eq!(comp, res);
}

#[test]
fn create_milter_protocol_no_body() {
    let x: [u8; 4] = [0, 0, 0, 16];
    let res = MilterProtocol::from_bits_truncate(u32::from_be_bytes(x));
    let comp = MilterProtocol::from_bits_truncate(MilterProtocol::NO_BODY);

    assert_eq!(comp, res);
}

#[test]
fn create_milter_protocol_no_connect_and_header() {
    let x: [u8; 4] = [0, 0, 0, 33];
    let res = MilterProtocol::from_bits_truncate(u32::from_be_bytes(x));
    let comp =
        MilterProtocol::from_bits_truncate(MilterProtocol::NO_CONNECT | MilterProtocol::NO_HEADER);

    assert_eq!(comp, res);
}

#[test]
fn decode_utf8_base64() {
    // Taken from an actual spam mail which contained padding chars
    let input = "=?utf-8?B?IkjDtmhsZSBkZXIgTMO2d2VuIiBTeXN0ZW0gbWFjaHQgRGV1dHNjaGUgQsO8cmdlciByZWljaCE=?=";
    let res = decode(input);
    let comp = "\"Höhle der Löwen\" System macht Deutsche Bürger reich!";

    assert_eq!(comp, res);
}

#[test]
fn decode_utf8_base64_with_not_encoded() {
    // Taken from an actual spam mail, with 'not encoded' around it to check
    // that text outside the encoded word is kept
    let input = "not encoded=?utf-8?B?4oCeSMO2aGxlIGRlciBMw7Z3ZW7igJwgU3lzdGVtIG1hY2h0IERldXRzY2hlIELDvHJnZXIgcmVpY2gh?=not encoded";
    let res = decode(input);
    let comp = "not encoded„Höhle der Löwen“ System macht Deutsche Bürger reich!not encoded";

    assert_eq!(comp, res);
}

/// The input is kept as it is where the encoding is broken
#[test]
fn decode_utf8_base64_broken_encoding() {
    let input =
        "not encoded=?utf-8?B?w7Z3ZW7igJ2h0IERldXRzY2hlIELDvHJnZXIgcmVpY2gh?=not encoded";
    let res = decode(input);

    assert_eq!(input, res);
}

#[test]
fn decode_utf8_quoted_printable() {
    let input = "=?utf-8?Q?Endlich_was_extrem_hartes_f=C3=BCr_Sie.?=";
    let res = decode(input);
    let comp = "Endlich was extrem hartes für Sie.";

    assert_eq!(comp, res);
}
