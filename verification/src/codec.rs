//! Reading and writing the messages.
//!
//! What the bytes mean is laid down in [`crate::schema`]; the functions here
//! compute it. Integers, and fields that are stepped over, are left to
//! `prost`.
use crate::message::{
    AddRequest, AddResponse, ClientMessage, EchoMessage, Request, Response, ServerMessage,
};
use crate::round_trip::{lemma_client_message_round_trip, lemma_server_message_round_trip};
use crate::schema::{
    add_request_bytes, add_request_field, add_response_bytes, add_response_field,
    client_field, client_message_bytes, echo_bytes, echo_field, framed_field, int32_as_varint,
    int32_field, lemma_field_bounds, merge_add_request, merge_add_response, merge_client,
    merge_echo, merge_server, optional_int32_field, parse_client_message, parse_embedded,
    parse_int32, parse_server_message, parse_text, request_fits, response_fits, server_field,
    server_message_bytes, varint_as_int32, ADD_FIELD, A_FIELD, B_FIELD, CONTENT_FIELD,
    ECHO_FIELD, RESULT_FIELD,
};
use crate::wire::{
    lemma_base128_extent, put_varint, read_key, read_varint, skip_field, write_key, WireType,
    MAX_TAG, MIN_TAG,
};
use vstd::prelude::*;
use vstd::slice::{slice_subrange, slice_to_vec};
use vstd::utf8::{decode_utf8, encode_utf8, valid_utf8};

verus! {

/// The `int32` carried by a 64-bit number from the wire.
fn int32_from_varint(value: u64) -> (r: i32)
    ensures
        r == varint_as_int32(value),
{
    let low: u64 = value % 0x1_0000_0000;
    if low < 0x8000_0000 {
        low as i32
    } else {
        ((low as i64) - 0x1_0000_0000) as i32
    }
}

/// The 64-bit number that carries an `int32` on the wire.
fn int32_to_varint(value: i32) -> (r: u64)
    ensures
        r == int32_as_varint(value),
{
    if value >= 0 {
        value as u64
    } else {
        0xFFFF_FFFF_FFFF_FFFF - ((-(value as i64)) as u64) + 1
    }
}

/// Reads a length-delimited payload: the bytes it frames and how far it
/// reaches.
fn read_embedded<'a>(wire: WireType, input: &'a [u8]) -> (r: Option<(&'a [u8], usize)>)
    ensures
        match parse_embedded(wire, input@) {
            Some((framed, m)) => r is Some && r.unwrap().0@ == framed && r.unwrap().1 == m,
            None => r is None,
        },
{
    proof {
        lemma_base128_extent(input@);
    }
    match wire {
        WireType::LengthDelimited => match read_varint(input) {
            Some((len, n)) => {
                if len > (input.len() - n) as u64 {
                    None
                } else {
                    let end: usize = n + (len as usize);
                    Some((slice_subrange(input, n, end), end))
                }
            },
            None => None,
        },
        _ => None,
    }
}

/// Makes a string of bytes that are valid UTF-8.
///
/// Calls `String::from_utf8`, which succeeds exactly on valid UTF-8 and then
/// holds the characters that the bytes encode.
#[verifier::external_body]
fn text_of(bytes: Vec<u8>) -> (r: Option<String>)
    ensures
        match r {
            Some(text) => valid_utf8(bytes@) && text@ == decode_utf8(bytes@),
            None => !valid_utf8(bytes@),
        },
{
    match String::from_utf8(bytes) {
        Ok(text) => Some(text),
        Err(_) => None,
    }
}

/// Reads a string payload.
fn read_text(wire: WireType, input: &[u8]) -> (r: Option<(String, usize)>)
    ensures
        match parse_text(wire, input@) {
            Some((text, m)) => r is Some && r.unwrap().0@ == text && r.unwrap().1 == m,
            None => r is None,
        },
{
    match read_embedded(wire, input) {
        Some((framed, m)) => match text_of(slice_to_vec(framed)) {
            Some(text) => Some((text, m)),
            None => None,
        },
        None => None,
    }
}

/// Reads an `int32` payload.
fn read_int32(wire: WireType, input: &[u8]) -> (r: Option<(i32, usize)>)
    ensures
        r == match parse_int32(wire, input@) {
            Some((value, m)) => Some((value, m as usize)),
            None => None,
        },
{
    match wire {
        WireType::Varint => match read_varint(input) {
            Some((value, n)) => Some((int32_from_varint(value), n)),
            None => None,
        },
        _ => None,
    }
}

/// Applies one field to an echo message that holds `text`.
fn read_echo_field(text: String, tag: u32, wire: WireType, payload: &[u8]) -> (r: Option<
    (String, usize),
>)
    ensures
        match echo_field(text@, tag, wire, payload@) {
            Some((next, m)) => r is Some && r.unwrap().0@ == next && r.unwrap().1 == m,
            None => r is None,
        },
{
    if tag == CONTENT_FIELD {
        read_text(wire, payload)
    } else {
        match skip_field(wire, tag, payload) {
            Some(m) => Some((text, m)),
            None => None,
        }
    }
}

/// Merges the fields in `input` into an echo message that holds `start`.
fn merge_echo_fields(start: String, input: &[u8]) -> (r: Option<String>)
    ensures
        match merge_echo(start@, input@) {
            Some(text) => r is Some && r.unwrap()@ == text,
            None => r is None,
        },
{
    let mut text = start;
    let mut pos: usize = 0;
    assert(input@.skip(0) =~= input@);
    while pos < input.len()
        invariant
            pos <= input.len(),
            merge_echo(start@, input@) == merge_echo(text@, input@.skip(pos as int)),
        decreases input.len() - pos,
    {
        let rest = slice_subrange(input, pos, input.len());
        proof {
            lemma_field_bounds(rest@);
        }
        let (tag, wire, n) = match read_key(rest) {
            Some(key) => key,
            None => { return None; },
        };
        let payload = slice_subrange(rest, n, rest.len());
        let (next, m) = match read_echo_field(text, tag, wire, payload) {
            Some(applied) => applied,
            None => { return None; },
        };
        assert(payload@.skip(m as int) =~= input@.skip(pos + n + m));
        text = next;
        pos = pos + n + m;
    }
    assert(input@.skip(pos as int) =~= Seq::<u8>::empty());
    Some(text)
}

/// Applies one field to an add request that holds `operands`.
fn read_add_request_field(operands: AddRequest, tag: u32, wire: WireType, payload: &[u8]) -> (r:
    Option<(AddRequest, usize)>)
    ensures
        r == match add_request_field((operands.a, operands.b), tag, wire, payload@) {
            Some(((a, b), m)) => Some((AddRequest { a, b }, m as usize)),
            None => None,
        },
{
    if tag == A_FIELD {
        match read_int32(wire, payload) {
            Some((a, m)) => Some((AddRequest { a, b: operands.b }, m)),
            None => None,
        }
    } else if tag == B_FIELD {
        match read_int32(wire, payload) {
            Some((b, m)) => Some((AddRequest { a: operands.a, b }, m)),
            None => None,
        }
    } else {
        match skip_field(wire, tag, payload) {
            Some(m) => Some((operands, m)),
            None => None,
        }
    }
}

/// Merges the fields in `input` into an add request that holds `start`.
fn merge_add_request_fields(start: AddRequest, input: &[u8]) -> (r: Option<AddRequest>)
    ensures
        r == match merge_add_request((start.a, start.b), input@) {
            Some((a, b)) => Some(AddRequest { a, b }),
            None => None,
        },
{
    let mut operands = start;
    let mut pos: usize = 0;
    assert(input@.skip(0) =~= input@);
    while pos < input.len()
        invariant
            pos <= input.len(),
            merge_add_request((start.a, start.b), input@) == merge_add_request(
                (operands.a, operands.b),
                input@.skip(pos as int),
            ),
        decreases input.len() - pos,
    {
        let rest = slice_subrange(input, pos, input.len());
        proof {
            lemma_field_bounds(rest@);
        }
        let (tag, wire, n) = match read_key(rest) {
            Some(key) => key,
            None => { return None; },
        };
        let payload = slice_subrange(rest, n, rest.len());
        let (next, m) = match read_add_request_field(operands, tag, wire, payload) {
            Some(applied) => applied,
            None => { return None; },
        };
        assert(payload@.skip(m as int) =~= input@.skip(pos + n + m));
        operands = next;
        pos = pos + n + m;
    }
    assert(input@.skip(pos as int) =~= Seq::<u8>::empty());
    Some(operands)
}

/// Applies one field to an add response that holds `sum`.
fn read_add_response_field(sum: AddResponse, tag: u32, wire: WireType, payload: &[u8]) -> (r:
    Option<(AddResponse, usize)>)
    ensures
        r == match add_response_field(sum.result, tag, wire, payload@) {
            Some((result, m)) => Some((AddResponse { result }, m as usize)),
            None => None,
        },
{
    if tag == RESULT_FIELD {
        match read_int32(wire, payload) {
            Some((result, m)) => Some((AddResponse { result }, m)),
            None => None,
        }
    } else {
        match skip_field(wire, tag, payload) {
            Some(m) => Some((sum, m)),
            None => None,
        }
    }
}

/// Merges the fields in `input` into an add response that holds `start`.
fn merge_add_response_fields(start: AddResponse, input: &[u8]) -> (r: Option<AddResponse>)
    ensures
        r == match merge_add_response(start.result, input@) {
            Some(result) => Some(AddResponse { result }),
            None => None,
        },
{
    let mut sum = start;
    let mut pos: usize = 0;
    assert(input@.skip(0) =~= input@);
    while pos < input.len()
        invariant
            pos <= input.len(),
            merge_add_response(start.result, input@) == merge_add_response(
                sum.result,
                input@.skip(pos as int),
            ),
        decreases input.len() - pos,
    {
        let rest = slice_subrange(input, pos, input.len());
        proof {
            lemma_field_bounds(rest@);
        }
        let (tag, wire, n) = match read_key(rest) {
            Some(key) => key,
            None => { return None; },
        };
        let payload = slice_subrange(rest, n, rest.len());
        let (next, m) = match read_add_response_field(sum, tag, wire, payload) {
            Some(applied) => applied,
            None => { return None; },
        };
        assert(payload@.skip(m as int) =~= input@.skip(pos + n + m));
        sum = next;
        pos = pos + n + m;
    }
    assert(input@.skip(pos as int) =~= Seq::<u8>::empty());
    Some(sum)
}

/// Applies one field to a client message that holds `current`.
fn read_client_field(current: ClientMessage, tag: u32, wire: WireType, payload: &[u8]) -> (r:
    Option<(ClientMessage, usize)>)
    ensures
        match client_field(current@, tag, wire, payload@) {
            Some((next, m)) => r is Some && r.unwrap().0@ == next && r.unwrap().1 == m,
            None => r is None,
        },
{
    if tag == ECHO_FIELD {
        let (framed, m) = match read_embedded(wire, payload) {
            Some(found) => found,
            None => { return None; },
        };
        let start = match current.message {
            Some(Request::Echo(echo)) => echo.content,
            _ => String::new(),
        };
        match merge_echo_fields(start, framed) {
            Some(content) => Some(
                (ClientMessage { message: Some(Request::Echo(EchoMessage { content })) }, m),
            ),
            None => None,
        }
    } else if tag == ADD_FIELD {
        let (framed, m) = match read_embedded(wire, payload) {
            Some(found) => found,
            None => { return None; },
        };
        let start = match current.message {
            Some(Request::Add(add)) => add,
            _ => AddRequest { a: 0, b: 0 },
        };
        match merge_add_request_fields(start, framed) {
            Some(add) => Some((ClientMessage { message: Some(Request::Add(add)) }, m)),
            None => None,
        }
    } else {
        match skip_field(wire, tag, payload) {
            Some(m) => Some((current, m)),
            None => None,
        }
    }
}

/// Reads a client message from the bytes of one read.
///
/// Succeeds exactly where the bytes are a well-formed sequence of fields, and
/// then returns the message they merge into; the empty input is the message
/// without a request.
pub fn decode_client_message(input: &[u8]) -> (r: Option<ClientMessage>)
    ensures
        match parse_client_message(input@) {
            Some(message) => r is Some && r.unwrap()@ == message,
            None => r is None,
        },
{
    let mut current = ClientMessage { message: None };
    let mut pos: usize = 0;
    assert(input@.skip(0) =~= input@);
    while pos < input.len()
        invariant
            pos <= input.len(),
            parse_client_message(input@) == merge_client(current@, input@.skip(pos as int)),
        decreases input.len() - pos,
    {
        let rest = slice_subrange(input, pos, input.len());
        proof {
            lemma_field_bounds(rest@);
        }
        let (tag, wire, n) = match read_key(rest) {
            Some(key) => key,
            None => { return None; },
        };
        let payload = slice_subrange(rest, n, rest.len());
        let (next, m) = match read_client_field(current, tag, wire, payload) {
            Some(applied) => applied,
            None => { return None; },
        };
        assert(payload@.skip(m as int) =~= input@.skip(pos + n + m));
        current = next;
        pos = pos + n + m;
    }
    assert(input@.skip(pos as int) =~= Seq::<u8>::empty());
    Some(current)
}

/// Applies one field to a server message that holds `current`.
fn read_server_field(current: ServerMessage, tag: u32, wire: WireType, payload: &[u8]) -> (r:
    Option<(ServerMessage, usize)>)
    ensures
        match server_field(current@, tag, wire, payload@) {
            Some((next, m)) => r is Some && r.unwrap().0@ == next && r.unwrap().1 == m,
            None => r is None,
        },
{
    if tag == ECHO_FIELD {
        let (framed, m) = match read_embedded(wire, payload) {
            Some(found) => found,
            None => { return None; },
        };
        let start = match current.message {
            Some(Response::Echo(echo)) => echo.content,
            _ => String::new(),
        };
        match merge_echo_fields(start, framed) {
            Some(content) => Some(
                (ServerMessage { message: Some(Response::Echo(EchoMessage { content })) }, m),
            ),
            None => None,
        }
    } else if tag == ADD_FIELD {
        let (framed, m) = match read_embedded(wire, payload) {
            Some(found) => found,
            None => { return None; },
        };
        let start = match current.message {
            Some(Response::Add(add)) => add,
            _ => AddResponse { result: 0 },
        };
        match merge_add_response_fields(start, framed) {
            Some(add) => Some((ServerMessage { message: Some(Response::Add(add)) }, m)),
            None => None,
        }
    } else {
        match skip_field(wire, tag, payload) {
            Some(m) => Some((current, m)),
            None => None,
        }
    }
}

/// Reads a server message from bytes.
///
/// Succeeds exactly where the bytes are a well-formed sequence of fields, and
/// then returns the message they merge into.
pub fn decode_server_message(input: &[u8]) -> (r: Option<ServerMessage>)
    ensures
        match parse_server_message(input@) {
            Some(message) => r is Some && r.unwrap()@ == message,
            None => r is None,
        },
{
    let mut current = ServerMessage { message: None };
    let mut pos: usize = 0;
    assert(input@.skip(0) =~= input@);
    while pos < input.len()
        invariant
            pos <= input.len(),
            parse_server_message(input@) == merge_server(current@, input@.skip(pos as int)),
        decreases input.len() - pos,
    {
        let rest = slice_subrange(input, pos, input.len());
        proof {
            lemma_field_bounds(rest@);
        }
        let (tag, wire, n) = match read_key(rest) {
            Some(key) => key,
            None => { return None; },
        };
        let payload = slice_subrange(rest, n, rest.len());
        let (next, m) = match read_server_field(current, tag, wire, payload) {
            Some(applied) => applied,
            None => { return None; },
        };
        assert(payload@.skip(m as int) =~= input@.skip(pos + n + m));
        current = next;
        pos = pos + n + m;
    }
    assert(input@.skip(pos as int) =~= Seq::<u8>::empty());
    Some(current)
}

/// Appends a length-delimited field that frames `body`.
fn write_framed(tag: u32, body: &[u8], out: &mut Vec<u8>)
    requires
        MIN_TAG <= tag <= MAX_TAG,
    ensures
        final(out)@ == old(out)@ + framed_field(tag, body@),
{
    write_key(tag, WireType::LengthDelimited, out);
    put_varint(body.len() as u64, out);
    let ghost before = out@;
    out.extend_from_slice(body);
    assert(out@ =~= before + body@);
    assert(out@ =~= old(out)@ + framed_field(tag, body@));
}

/// Appends an `int32` field, unless the value is zero.
fn write_int32(tag: u32, value: i32, out: &mut Vec<u8>)
    requires
        MIN_TAG <= tag <= MAX_TAG,
    ensures
        final(out)@ == old(out)@ + optional_int32_field(tag, value),
{
    if value != 0 {
        write_key(tag, WireType::Varint, out);
        put_varint(int32_to_varint(value), out);
        assert(out@ =~= old(out)@ + int32_field(tag, value));
    } else {
        assert(out@ =~= old(out)@ + Seq::<u8>::empty());
    }
}

/// The bytes of an echo message.
fn encode_echo(echo: &EchoMessage) -> (r: Vec<u8>)
    ensures
        r@ == echo_bytes(echo.content@),
{
    let mut out: Vec<u8> = Vec::new();
    let text = echo.content.as_str();
    if !text.is_empty() {
        write_framed(CONTENT_FIELD, text.as_bytes(), &mut out);
        assert(out@ =~= framed_field(CONTENT_FIELD, encode_utf8(echo.content@)));
    }
    out
}

/// The bytes of an add request.
fn encode_add_request(add: &AddRequest) -> (r: Vec<u8>)
    ensures
        r@ == add_request_bytes(add.a, add.b),
{
    let mut out: Vec<u8> = Vec::new();
    write_int32(A_FIELD, add.a, &mut out);
    write_int32(B_FIELD, add.b, &mut out);
    assert(out@ =~= add_request_bytes(add.a, add.b));
    out
}

/// The bytes of an add response.
fn encode_add_response(add: &AddResponse) -> (r: Vec<u8>)
    ensures
        r@ == add_response_bytes(add.result),
{
    let mut out: Vec<u8> = Vec::new();
    write_int32(RESULT_FIELD, add.result, &mut out);
    assert(out@ =~= add_response_bytes(add.result));
    out
}

/// Writes a client message as the bytes that go on the wire.
pub fn encode_client_message(message: &ClientMessage) -> (r: Vec<u8>)
    ensures
        r@ == client_message_bytes(message@),
        request_fits(message@),
        parse_client_message(r@) == Some(message@),
{
    let mut out: Vec<u8> = Vec::new();
    match &message.message {
        Some(Request::Echo(echo)) => {
            let body = encode_echo(echo);
            write_framed(ECHO_FIELD, body.as_slice(), &mut out);
            assert(out@ =~= framed_field(ECHO_FIELD, body@));
            assert(body@.len() == body.len());
        },
        Some(Request::Add(add)) => {
            let body = encode_add_request(add);
            write_framed(ADD_FIELD, body.as_slice(), &mut out);
            assert(out@ =~= framed_field(ADD_FIELD, body@));
        },
        None => {},
    }
    proof {
        lemma_client_message_round_trip(message@);
    }
    out
}

/// Writes a server message as the bytes that go on the wire.
pub fn encode_server_message(message: &ServerMessage) -> (r: Vec<u8>)
    ensures
        r@ == server_message_bytes(message@),
        response_fits(message@),
        parse_server_message(r@) == Some(message@),
{
    let mut out: Vec<u8> = Vec::new();
    match &message.message {
        Some(Response::Echo(echo)) => {
            let body = encode_echo(echo);
            write_framed(ECHO_FIELD, body.as_slice(), &mut out);
            assert(out@ =~= framed_field(ECHO_FIELD, body@));
            assert(body@.len() == body.len());
        },
        Some(Response::Add(add)) => {
            let body = encode_add_response(add);
            write_framed(ADD_FIELD, body.as_slice(), &mut out);
            assert(out@ =~= framed_field(ADD_FIELD, body@));
        },
        None => {},
    }
    proof {
        lemma_server_message_round_trip(message@);
    }
    out
}

} // verus!
