use echo_server::codec::{
    decode_client_message, decode_server_message, encode_client_message, encode_server_message,
};
use echo_server::message::{
    dispatch, AddRequest, AddResponse, ClientMessage, EchoMessage, Request, Response,
    ServerMessage,
};
use echo_server::wire::{read_key, read_varint, skip_field, write_key, WireType};
use prost::Message;

fn echo(content: &str) -> EchoMessage {
    EchoMessage { content: content.to_string() }
}

fn client_echo(content: &str) -> ClientMessage {
    ClientMessage { message: Some(Request::Echo(echo(content))) }
}

fn client_add(a: i32, b: i32) -> ClientMessage {
    ClientMessage { message: Some(Request::Add(AddRequest { a, b })) }
}

fn server_echo(content: &str) -> ServerMessage {
    ServerMessage { message: Some(Response::Echo(echo(content))) }
}

fn server_add(result: i32) -> ServerMessage {
    ServerMessage { message: Some(Response::Add(AddResponse { result })) }
}

/// The envelope around an echo message, written by prost alone: a message
/// with one string field numbered 1 is what prost makes of a `String`.
fn prost_echo_envelope(content: &str) -> Vec<u8> {
    let mut out = Vec::new();
    prost::encoding::message::encode(1, &content.to_string(), &mut out);
    out
}

/// The envelope around an embedded message numbered 2, written by prost.
fn prost_add_envelope(body: &[u8]) -> Vec<u8> {
    let mut out = Vec::new();
    prost::encoding::encode_key(2, prost::encoding::WireType::LengthDelimited, &mut out);
    prost::encoding::encode_varint(body.len() as u64, &mut out);
    out.extend_from_slice(body);
    out
}

fn prost_add_request_body(a: i32, b: i32) -> Vec<u8> {
    let mut body = Vec::new();
    if a != 0 {
        prost::encoding::int32::encode(1, &a, &mut body);
    }
    if b != 0 {
        prost::encoding::int32::encode(2, &b, &mut body);
    }
    body
}

const TEXTS: [&str; 7] = [
    "",
    "a",
    "Hello, World!",
    "How are you?",
    "Goodbye!",
    "žluťoučký kůň 🐎 \u{0} \u{10ffff}",
    "line one\nline two\ttabbed",
];

const NUMBERS: [i32; 11] =
    [0, 1, -1, 10, 20, 127, 128, -128, 300, i32::MAX, i32::MIN];

#[test]
fn echo_envelope_matches_prost() {
    for text in TEXTS {
        assert_eq!(encode_client_message(&client_echo(text)), prost_echo_envelope(text));
        assert_eq!(encode_server_message(&server_echo(text)), prost_echo_envelope(text));
    }
}

#[test]
fn long_text_matches_prost() {
    let text = "0123456789".repeat(40);
    let bytes = encode_client_message(&client_echo(&text));
    assert_eq!(bytes, prost_echo_envelope(&text));
    assert_eq!(bytes.len(), 1 + 2 + 1 + 2 + 400);
    assert_eq!(decode_client_message(&bytes), Some(client_echo(&text)));
}

#[test]
fn add_request_envelope_matches_prost() {
    for a in NUMBERS {
        for b in NUMBERS {
            let expected = prost_add_envelope(&prost_add_request_body(a, b));
            assert_eq!(encode_client_message(&client_add(a, b)), expected);
        }
    }
}

#[test]
fn add_response_envelope_matches_prost() {
    for result in NUMBERS {
        // A message with one int32 field numbered 1 is what prost makes of an `i32`.
        let expected = prost_add_envelope(&result.encode_to_vec());
        assert_eq!(encode_server_message(&server_add(result)), expected);
    }
}

#[test]
fn empty_envelopes_are_empty() {
    assert_eq!(encode_client_message(&ClientMessage { message: None }), Vec::<u8>::new());
    assert_eq!(encode_server_message(&ServerMessage { message: None }), Vec::<u8>::new());
    assert_eq!(decode_client_message(&[]), Some(ClientMessage { message: None }));
    assert_eq!(decode_server_message(&[]), Some(ServerMessage { message: None }));
}

#[test]
fn exact_bytes_of_small_messages() {
    assert_eq!(encode_client_message(&client_echo("")), vec![0x0a, 0x00]);
    assert_eq!(encode_client_message(&client_echo("hi")), vec![0x0a, 0x04, 0x0a, 0x02, b'h', b'i']);
    assert_eq!(encode_client_message(&client_add(0, 0)), vec![0x12, 0x00]);
    assert_eq!(
        encode_client_message(&client_add(10, 20)),
        vec![0x12, 0x04, 0x08, 0x0a, 0x10, 0x14]
    );
    assert_eq!(encode_client_message(&client_add(0, 300)), vec![0x12, 0x03, 0x10, 0xac, 0x02]);
    assert_eq!(
        encode_server_message(&server_add(-1)),
        vec![0x12, 0x0b, 0x08, 0xff, 0xff, 0xff, 0xff, 0xff, 0xff, 0xff, 0xff, 0xff, 0x01]
    );
    assert_eq!(encode_server_message(&server_add(30)), vec![0x12, 0x02, 0x08, 0x1e]);
}

#[test]
fn what_prost_writes_is_read_back() {
    for text in TEXTS {
        assert_eq!(decode_client_message(&prost_echo_envelope(text)), Some(client_echo(text)));
        assert_eq!(decode_server_message(&prost_echo_envelope(text)), Some(server_echo(text)));
    }
    for a in NUMBERS {
        for b in NUMBERS {
            let bytes = prost_add_envelope(&prost_add_request_body(a, b));
            assert_eq!(decode_client_message(&bytes), Some(client_add(a, b)));
        }
        let bytes = prost_add_envelope(&a.encode_to_vec());
        assert_eq!(decode_server_message(&bytes), Some(server_add(a)));
    }
}

#[test]
fn what_is_written_is_read_back_by_prost() {
    for text in TEXTS {
        let bytes = encode_server_message(&server_echo(text));
        let (body, rest) = open_envelope(&bytes, 1);
        assert!(rest.is_empty());
        assert_eq!(String::decode(body).unwrap(), text);
    }
    for result in NUMBERS {
        let bytes = encode_server_message(&server_add(result));
        let (body, rest) = open_envelope(&bytes, 2);
        assert!(rest.is_empty());
        assert_eq!(i32::decode(body).unwrap(), result);
    }
}

/// Splits off the embedded message with the given number, reading key and
/// length with prost.
fn open_envelope(bytes: &[u8], tag: u32) -> (&[u8], &[u8]) {
    let mut rest: &[u8] = bytes;
    let (found, wire) = prost::encoding::decode_key(&mut rest).unwrap();
    assert_eq!(found, tag);
    assert_eq!(wire, prost::encoding::WireType::LengthDelimited);
    let len = prost::encoding::decode_varint(&mut rest).unwrap() as usize;
    rest.split_at(len)
}

#[test]
fn round_trips() {
    for text in TEXTS {
        let message = client_echo(text);
        assert_eq!(decode_client_message(&encode_client_message(&message)), Some(message));
        let message = server_echo(text);
        assert_eq!(decode_server_message(&encode_server_message(&message)), Some(message));
    }
    for a in NUMBERS {
        for b in NUMBERS {
            let message = client_add(a, b);
            assert_eq!(decode_client_message(&encode_client_message(&message)), Some(message));
        }
        let message = server_add(a);
        assert_eq!(decode_server_message(&encode_server_message(&message)), Some(message));
    }
}

#[test]
fn dispatch_answers_each_kind() {
    assert_eq!(dispatch(client_echo("Hello, World!")), Some(server_echo("Hello, World!")));
    assert_eq!(dispatch(client_echo("")), Some(server_echo("")));
    assert_eq!(dispatch(client_add(10, 20)), Some(server_add(30)));
    assert_eq!(dispatch(client_add(-7, 7)), Some(server_add(0)));
    assert_eq!(dispatch(client_add(i32::MAX, i32::MAX)), Some(server_add(-2)));
    assert_eq!(dispatch(ClientMessage { message: None }), None);
}

#[test]
fn the_last_request_decides_the_kind() {
    let mut bytes = encode_client_message(&client_echo("first"));
    bytes.extend(encode_client_message(&client_add(1, 2)));
    assert_eq!(decode_client_message(&bytes), Some(client_add(1, 2)));

    let mut bytes = encode_client_message(&client_add(1, 2));
    bytes.extend(encode_client_message(&client_echo("last")));
    assert_eq!(decode_client_message(&bytes), Some(client_echo("last")));
}

#[test]
fn a_request_met_twice_is_merged() {
    // a = 5 in the first copy, b = 9 in the second: both are kept.
    let mut bytes = encode_client_message(&client_add(5, 0));
    bytes.extend(encode_client_message(&client_add(0, 9)));
    assert_eq!(decode_client_message(&bytes), Some(client_add(5, 9)));

    // An echo with no text merged into one with text keeps the text.
    let mut bytes = encode_client_message(&client_echo("kept"));
    bytes.extend(encode_client_message(&client_echo("")));
    assert_eq!(decode_client_message(&bytes), Some(client_echo("kept")));

    // A field met twice inside one message: the last one wins.
    let bytes = [0x12, 0x04, 0x08, 0x01, 0x08, 0x02];
    assert_eq!(decode_client_message(&bytes), Some(client_add(2, 0)));

    // After another kind in between, merging starts afresh.
    let mut bytes = encode_client_message(&client_add(5, 6));
    bytes.extend(encode_client_message(&client_echo("x")));
    bytes.extend(encode_client_message(&client_add(0, 9)));
    assert_eq!(decode_client_message(&bytes), Some(client_add(0, 9)));
}

#[test]
fn unknown_fields_are_stepped_over() {
    // Field 3 as varint, field 4 as 64-bit, field 5 as 32-bit, field 6 as
    // bytes, field 7 as an empty group, each before the request.
    let mut bytes = vec![0x18, 0x96, 0x01];
    bytes.extend([0x21, 1, 2, 3, 4, 5, 6, 7, 8]);
    bytes.extend([0x2d, 1, 2, 3, 4]);
    bytes.extend([0x32, 0x03, b'a', b'b', b'c']);
    bytes.extend([0x3b, 0x3c]);
    bytes.extend(encode_client_message(&client_echo("after")));
    assert_eq!(decode_client_message(&bytes), Some(client_echo("after")));

    // Unknown fields inside the embedded messages.
    let bytes = [0x0a, 0x06, 0x10, 0x01, 0x0a, 0x02, b'o', b'k'];
    assert_eq!(decode_client_message(&bytes), Some(client_echo("ok")));
    let bytes = [0x12, 0x06, 0x08, 0x07, 0x1b, 0x1c, 0x10, 0x08];
    assert_eq!(decode_client_message(&bytes), Some(client_add(7, 8)));
    let bytes = [0x12, 0x05, 0x13, 0x08, 0x01, 0x14, 0x08];
    assert_eq!(decode_server_message(&bytes), None);
    let bytes = [0x12, 0x06, 0x13, 0x08, 0x01, 0x14, 0x08, 0x2a];
    assert_eq!(decode_server_message(&bytes), Some(server_add(42)));
}

#[test]
fn malformed_input_is_refused() {
    let cases: Vec<Vec<u8>> = vec![
        vec![0x0a],                               // key without a length
        vec![0x0a, 0x05, 0x0a, 0x01],             // length past the end
        vec![0x0a, 0x03, 0x0a, 0x05, b'x'],       // inner length past the frame
        vec![0x0a, 0x03, 0x0a, 0x01, 0xff],       // text is not UTF-8
        vec![0x0a, 0x04, 0x0a, 0x02, 0xc3, 0x28], // bad continuation byte
        vec![0x08, 0x01],                         // echo as varint
        vec![0x10, 0x01],                         // add as varint
        vec![0x12, 0x02, 0x0a, 0x00],             // operand as bytes
        vec![0x12, 0x01, 0x08],                   // operand without a value
        vec![0x00],                               // field number zero
        vec![0x0e],                               // wire type 6
        vec![0x0f],                               // wire type 7
        vec![0x0c],                               // end of a group that never began
        vec![0x1b],                               // group that never ends
        vec![0x1b, 0x24],                         // group ended by another number
        vec![0x80],                               // unfinished varint
        vec![0xff, 0xff, 0xff, 0xff, 0x1f],       // key beyond 32 bits
        vec![0x1d, 1, 2, 3],                      // 32-bit field cut short
        vec![0x19, 1, 2, 3, 4, 5, 6, 7],          // 64-bit field cut short
    ];
    for bytes in cases {
        assert_eq!(decode_client_message(&bytes), None, "{:?}", bytes);
        assert_eq!(decode_server_message(&bytes), None, "{:?}", bytes);
    }
}

#[test]
fn int32_takes_the_low_32_bits() {
    // 2^32 + 5 as the operand: the bits above the 32nd are dropped.
    let bytes = [0x12, 0x06, 0x08, 0x85, 0x80, 0x80, 0x80, 0x10];
    assert_eq!(decode_client_message(&bytes), Some(client_add(5, 0)));
    // 2^31 reads as the smallest int32.
    let bytes = [0x12, 0x06, 0x08, 0x80, 0x80, 0x80, 0x80, 0x08];
    assert_eq!(decode_client_message(&bytes), Some(client_add(i32::MIN, 0)));
    // 2^32 - 1 reads as -1.
    let bytes = [0x12, 0x06, 0x08, 0xff, 0xff, 0xff, 0xff, 0x0f];
    assert_eq!(decode_client_message(&bytes), Some(client_add(-1, 0)));
}

#[test]
fn varints_are_read_as_prost_reads_them() {
    let inputs: Vec<Vec<u8>> = vec![
        vec![],
        vec![0x00],
        vec![0x01],
        vec![0x7f],
        vec![0x80, 0x01],
        vec![0xac, 0x02],
        vec![0xac, 0x02, 0x55, 0x66],
        vec![0x80, 0x00],
        vec![0x80, 0x80, 0x80, 0x00],
        vec![0x80],
        vec![0xff, 0xff],
        vec![0xff; 9],
        vec![0xff, 0xff, 0xff, 0xff, 0xff, 0xff, 0xff, 0xff, 0x7f],
        vec![0xff, 0xff, 0xff, 0xff, 0xff, 0xff, 0xff, 0xff, 0xff, 0x00],
        vec![0xff, 0xff, 0xff, 0xff, 0xff, 0xff, 0xff, 0xff, 0xff, 0x01],
        vec![0xff, 0xff, 0xff, 0xff, 0xff, 0xff, 0xff, 0xff, 0xff, 0x02],
        vec![0xff, 0xff, 0xff, 0xff, 0xff, 0xff, 0xff, 0xff, 0xff, 0x7f],
        vec![0xff, 0xff, 0xff, 0xff, 0xff, 0xff, 0xff, 0xff, 0xff, 0x80],
        vec![0x80, 0x80, 0x80, 0x80, 0x80, 0x80, 0x80, 0x80, 0x80, 0x01, 0x99],
        vec![0xff; 10],
        vec![0xff; 11],
        vec![0x80, 0x80, 0x80, 0x80, 0x80, 0x80, 0x80, 0x80, 0x80, 0x80, 0x01],
    ];
    for input in inputs {
        let mut rest: &[u8] = &input;
        let expected = match prost::encoding::decode_varint(&mut rest) {
            Ok(value) => Some((value, input.len() - rest.len())),
            Err(_) => None,
        };
        assert_eq!(read_varint(&input), expected, "{:?}", input);
    }
    assert_eq!(read_varint(&[0xac, 0x02, 0x55]), Some((300, 2)));
    assert_eq!(
        read_varint(&[0xff, 0xff, 0xff, 0xff, 0xff, 0xff, 0xff, 0xff, 0xff, 0x01]),
        Some((u64::MAX, 10))
    );
    assert_eq!(
        read_varint(&[0xff, 0xff, 0xff, 0xff, 0xff, 0xff, 0xff, 0xff, 0xff, 0x02]),
        None
    );
}

fn wire_types() -> [(WireType, prost::encoding::WireType); 6] {
    [
        (WireType::Varint, prost::encoding::WireType::Varint),
        (WireType::SixtyFourBit, prost::encoding::WireType::SixtyFourBit),
        (WireType::LengthDelimited, prost::encoding::WireType::LengthDelimited),
        (WireType::StartGroup, prost::encoding::WireType::StartGroup),
        (WireType::EndGroup, prost::encoding::WireType::EndGroup),
        (WireType::ThirtyTwoBit, prost::encoding::WireType::ThirtyTwoBit),
    ]
}

#[test]
fn keys_are_written_and_read_as_prost_does() {
    let tags: [u32; 8] = [1, 2, 15, 16, 2047, 2048, 1 << 20, (1 << 29) - 1];
    for tag in tags {
        for (wire, outside) in wire_types() {
            let mut ours = Vec::new();
            write_key(tag, wire, &mut ours);
            let mut theirs = Vec::new();
            prost::encoding::encode_key(tag, outside, &mut theirs);
            assert_eq!(ours, theirs);
            assert_eq!(read_key(&ours), Some((tag, wire, ours.len())));
            let mut rest: &[u8] = &ours;
            assert_eq!(prost::encoding::decode_key(&mut rest).unwrap(), (tag, outside));
        }
    }
    let mut out = vec![0xee];
    write_key(1, WireType::LengthDelimited, &mut out);
    assert_eq!(out, vec![0xee, 0x0a]);
    assert_eq!(WireType::ThirtyTwoBit.code(), 5);
    assert_eq!(WireType::from_code(2), Some(WireType::LengthDelimited));
    assert_eq!(WireType::from_code(6), None);
}

#[test]
fn bad_keys_are_refused_as_prost_refuses_them() {
    let inputs: Vec<Vec<u8>> = vec![
        vec![],
        vec![0x00],
        vec![0x07],
        vec![0x0e],
        vec![0x0f],
        vec![0x80],
        vec![0xf8, 0xff, 0xff, 0xff, 0x0f],
        vec![0xf8, 0xff, 0xff, 0xff, 0x1f],
        vec![0x88, 0x80, 0x80, 0x80, 0x80, 0x01],
    ];
    for input in inputs {
        let mut rest: &[u8] = &input;
        let expected = prost::encoding::decode_key(&mut rest).is_ok();
        assert_eq!(read_key(&input).is_some(), expected, "{:?}", input);
    }
    assert_eq!(read_key(&[0x00]), None);
    assert_eq!(read_key(&[0x0e]), None);
    assert_eq!(
        read_key(&[0xf8, 0xff, 0xff, 0xff, 0x0f]),
        Some(((1 << 29) - 1, WireType::Varint, 5))
    );
    assert_eq!(read_key(&[0xf8, 0xff, 0xff, 0xff, 0x1f]), None);
}

#[test]
fn fields_are_measured() {
    assert_eq!(skip_field(WireType::Varint, 3, &[0x96, 0x01, 0x77]), Some(2));
    assert_eq!(skip_field(WireType::Varint, 3, &[0x96]), None);
    assert_eq!(skip_field(WireType::SixtyFourBit, 3, &[0; 9]), Some(8));
    assert_eq!(skip_field(WireType::SixtyFourBit, 3, &[0; 7]), None);
    assert_eq!(skip_field(WireType::ThirtyTwoBit, 3, &[0; 4]), Some(4));
    assert_eq!(skip_field(WireType::ThirtyTwoBit, 3, &[0; 3]), None);
    assert_eq!(skip_field(WireType::LengthDelimited, 3, &[0x02, 1, 2, 3]), Some(3));
    assert_eq!(skip_field(WireType::LengthDelimited, 3, &[0x00]), Some(1));
    assert_eq!(skip_field(WireType::LengthDelimited, 3, &[0x03, 1, 2]), None);
    assert_eq!(skip_field(WireType::EndGroup, 3, &[0x00, 0x00]), None);
    // A group of field 3 holding a varint field, then its end.
    assert_eq!(skip_field(WireType::StartGroup, 3, &[0x08, 0x01, 0x1c, 0x55]), Some(3));
    // A group inside a group.
    assert_eq!(skip_field(WireType::StartGroup, 3, &[0x23, 0x24, 0x1c]), Some(3));
    assert_eq!(skip_field(WireType::StartGroup, 3, &[0x08, 0x01]), None);
    assert_eq!(skip_field(WireType::StartGroup, 3, &[0x24]), None);
}
