//! The byte form of the messages, as mathematics.
//!
//! Messages travel in protobuf encoding. An echo message is one string field,
//! an add request two `int32` fields, an add response one; the envelopes hold
//! whichever of their two messages is present as an embedded message. A field
//! at its default value is left out when writing, a field met twice is merged
//! when reading, and a field with a number this schema does not know is
//! stepped over.
use crate::message::{RequestView, ResponseView};
use crate::wire::{
    field_extent, key_bytes, lemma_base128_extent, parse_key, parse_varint, varint_bytes,
    WireType,
};
use vstd::prelude::*;
use vstd::utf8::{decode_utf8, encode_utf8, valid_utf8};

verus! {


/// Field number of the text of an echo message.
pub const CONTENT_FIELD: u32 = 1;

/// Field number of the first operand of an add request.
pub const A_FIELD: u32 = 1;

/// Field number of the second operand of an add request.
pub const B_FIELD: u32 = 2;

/// Field number of the sum in an add response.
pub const RESULT_FIELD: u32 = 1;

/// Field number of the echo message in either envelope.
pub const ECHO_FIELD: u32 = 1;

/// Field number of the add request or add response in its envelope.
pub const ADD_FIELD: u32 = 2;

/// The 64-bit number that carries an `int32` on the wire: the value itself,
/// sign-extended, so a negative value counts down from 2^64.
pub open spec fn int32_as_varint(value: i32) -> u64 {
    if value >= 0 {
        value as u64
    } else {
        (value + 0x1_0000_0000_0000_0000) as u64
    }
}

/// The `int32` that a 64-bit number from the wire stands for: its low 32 bits,
/// read as a signed number.
pub open spec fn varint_as_int32(value: u64) -> i32 {
    let low = value % 0x1_0000_0000;
    if low < 0x8000_0000 {
        low as i32
    } else {
        (low - 0x1_0000_0000) as i32
    }
}

/// A length-delimited payload at the start of `bytes`: the bytes it frames and
/// how far it reaches, length prefix included.
pub open spec fn parse_embedded(wire: WireType, bytes: Seq<u8>) -> Option<(Seq<u8>, nat)> {
    if wire is LengthDelimited {
        match parse_varint(bytes) {
            Some((len, n)) => if len <= bytes.len() - n {
                Some((bytes.subrange(n as int, n + len), (n + len) as nat))
            } else {
                None
            },
            None => None,
        }
    } else {
        None
    }
}

/// A string payload at the start of `bytes`: a length-delimited payload that
/// is valid UTF-8.
pub open spec fn parse_text(wire: WireType, bytes: Seq<u8>) -> Option<(Seq<char>, nat)> {
    match parse_embedded(wire, bytes) {
        Some((framed, m)) => if valid_utf8(framed) {
            Some((decode_utf8(framed), m))
        } else {
            None
        },
        None => None,
    }
}

/// An `int32` payload at the start of `bytes`.
pub open spec fn parse_int32(wire: WireType, bytes: Seq<u8>) -> Option<(i32, nat)> {
    if wire is Varint {
        match parse_varint(bytes) {
            Some((value, n)) => Some((varint_as_int32(value), n)),
            None => None,
        }
    } else {
        None
    }
}

/// What one field does to an echo message that holds `text`: the content
/// field replaces the text, any other field is stepped over. With the text
/// afterwards comes the length of the payload.
pub open spec fn echo_field(text: Seq<char>, tag: u32, wire: WireType, payload: Seq<u8>) -> Option<
    (Seq<char>, nat),
> {
    if tag == CONTENT_FIELD {
        parse_text(wire, payload)
    } else {
        match field_extent(wire, tag, payload) {
            Some(m) => Some((text, m)),
            None => None,
        }
    }
}

/// The text of an echo message after the fields in `bytes` have been merged
/// into one that held `text`: the last content field wins.
pub open spec fn merge_echo(text: Seq<char>, bytes: Seq<u8>) -> Option<Seq<char>>
    decreases bytes.len(),
    via merge_echo_decreases
{
    if bytes.len() == 0 {
        Some(text)
    } else {
        match parse_key(bytes) {
            Some((tag, wire, n)) => match echo_field(text, tag, wire, bytes.skip(n as int)) {
                Some((next, m)) => merge_echo(next, bytes.skip(n as int).skip(m as int)),
                None => None,
            },
            None => None,
        }
    }
}

#[via_fn]
proof fn merge_echo_decreases(text: Seq<char>, bytes: Seq<u8>) {
    lemma_field_bounds(bytes);
}

/// What one field does to an add request that holds `operands`: each operand
/// field replaces its operand, any other field is stepped over.
pub open spec fn add_request_field(
    operands: (i32, i32),
    tag: u32,
    wire: WireType,
    payload: Seq<u8>,
) -> Option<((i32, i32), nat)> {
    if tag == A_FIELD {
        match parse_int32(wire, payload) {
            Some((a, m)) => Some(((a, operands.1), m)),
            None => None,
        }
    } else if tag == B_FIELD {
        match parse_int32(wire, payload) {
            Some((b, m)) => Some(((operands.0, b), m)),
            None => None,
        }
    } else {
        match field_extent(wire, tag, payload) {
            Some(m) => Some((operands, m)),
            None => None,
        }
    }
}

/// The operands of an add request after the fields in `bytes` have been merged
/// into one that held `operands`.
pub open spec fn merge_add_request(operands: (i32, i32), bytes: Seq<u8>) -> Option<(i32, i32)>
    decreases bytes.len(),
    via merge_add_request_decreases
{
    if bytes.len() == 0 {
        Some(operands)
    } else {
        match parse_key(bytes) {
            Some((tag, wire, n)) => match add_request_field(
                operands,
                tag,
                wire,
                bytes.skip(n as int),
            ) {
                Some((next, m)) => merge_add_request(next, bytes.skip(n as int).skip(m as int)),
                None => None,
            },
            None => None,
        }
    }
}

#[via_fn]
proof fn merge_add_request_decreases(operands: (i32, i32), bytes: Seq<u8>) {
    lemma_field_bounds(bytes);
}

/// What one field does to an add response that holds `result`: the result
/// field replaces it, any other field is stepped over.
pub open spec fn add_response_field(result: i32, tag: u32, wire: WireType, payload: Seq<u8>)
    -> Option<(i32, nat)> {
    if tag == RESULT_FIELD {
        parse_int32(wire, payload)
    } else {
        match field_extent(wire, tag, payload) {
            Some(m) => Some((result, m)),
            None => None,
        }
    }
}

/// The sum in an add response after the fields in `bytes` have been merged
/// into one that held `result`.
pub open spec fn merge_add_response(result: i32, bytes: Seq<u8>) -> Option<i32>
    decreases bytes.len(),
    via merge_add_response_decreases
{
    if bytes.len() == 0 {
        Some(result)
    } else {
        match parse_key(bytes) {
            Some((tag, wire, n)) => match add_response_field(
                result,
                tag,
                wire,
                bytes.skip(n as int),
            ) {
                Some((next, m)) => merge_add_response(next, bytes.skip(n as int).skip(m as int)),
                None => None,
            },
            None => None,
        }
    }
}

#[via_fn]
proof fn merge_add_response_decreases(result: i32, bytes: Seq<u8>) {
    lemma_field_bounds(bytes);
}

/// The text that an embedded echo message is merged into: the text of the
/// request so far if that is an echo, else the empty text.
pub open spec fn request_text(current: Option<RequestView>) -> Seq<char> {
    match current {
        Some(RequestView::Echo(text)) => text,
        _ => Seq::empty(),
    }
}

/// The operands that an embedded add request is merged into: those of the
/// request so far if that is an addition, else zeros.
pub open spec fn request_operands(current: Option<RequestView>) -> (i32, i32) {
    match current {
        Some(RequestView::Add(a, b)) => (a, b),
        _ => (0, 0),
    }
}

/// What one field does to a client message that holds `current`. An embedded
/// request becomes the request of the message, merged into the one before it
/// if that was of the same kind; any other field is stepped over.
pub open spec fn client_field(
    current: Option<RequestView>,
    tag: u32,
    wire: WireType,
    payload: Seq<u8>,
) -> Option<(Option<RequestView>, nat)> {
    if tag == ECHO_FIELD {
        match parse_embedded(wire, payload) {
            Some((framed, m)) => match merge_echo(request_text(current), framed) {
                Some(text) => Some((Some(RequestView::Echo(text)), m)),
                None => None,
            },
            None => None,
        }
    } else if tag == ADD_FIELD {
        match parse_embedded(wire, payload) {
            Some((framed, m)) => match merge_add_request(request_operands(current), framed) {
                Some((a, b)) => Some((Some(RequestView::Add(a, b)), m)),
                None => None,
            },
            None => None,
        }
    } else {
        match field_extent(wire, tag, payload) {
            Some(m) => Some((current, m)),
            None => None,
        }
    }
}

/// The request of a client message after the fields in `bytes` have been
/// merged into one that held `current`: the request met last decides.
pub open spec fn merge_client(current: Option<RequestView>, bytes: Seq<u8>) -> Option<
    Option<RequestView>,
>
    decreases bytes.len(),
    via merge_client_decreases
{
    if bytes.len() == 0 {
        Some(current)
    } else {
        match parse_key(bytes) {
            Some((tag, wire, n)) => match client_field(current, tag, wire, bytes.skip(n as int)) {
                Some((next, m)) => merge_client(next, bytes.skip(n as int).skip(m as int)),
                None => None,
            },
            None => None,
        }
    }
}

#[via_fn]
proof fn merge_client_decreases(current: Option<RequestView>, bytes: Seq<u8>) {
    lemma_field_bounds(bytes);
}

/// The text that an embedded echo message is merged into on the way back.
pub open spec fn response_text(current: Option<ResponseView>) -> Seq<char> {
    match current {
        Some(ResponseView::Echo(text)) => text,
        _ => Seq::empty(),
    }
}

/// The sum that an embedded add response is merged into.
pub open spec fn response_sum(current: Option<ResponseView>) -> i32 {
    match current {
        Some(ResponseView::Add(result)) => result,
        _ => 0,
    }
}

/// What one field does to a server message that holds `current`.
pub open spec fn server_field(
    current: Option<ResponseView>,
    tag: u32,
    wire: WireType,
    payload: Seq<u8>,
) -> Option<(Option<ResponseView>, nat)> {
    if tag == ECHO_FIELD {
        match parse_embedded(wire, payload) {
            Some((framed, m)) => match merge_echo(response_text(current), framed) {
                Some(text) => Some((Some(ResponseView::Echo(text)), m)),
                None => None,
            },
            None => None,
        }
    } else if tag == ADD_FIELD {
        match parse_embedded(wire, payload) {
            Some((framed, m)) => match merge_add_response(response_sum(current), framed) {
                Some(result) => Some((Some(ResponseView::Add(result)), m)),
                None => None,
            },
            None => None,
        }
    } else {
        match field_extent(wire, tag, payload) {
            Some(m) => Some((current, m)),
            None => None,
        }
    }
}

/// The response of a server message after the fields in `bytes` have been
/// merged into one that held `current`.
pub open spec fn merge_server(current: Option<ResponseView>, bytes: Seq<u8>) -> Option<
    Option<ResponseView>,
>
    decreases bytes.len(),
    via merge_server_decreases
{
    if bytes.len() == 0 {
        Some(current)
    } else {
        match parse_key(bytes) {
            Some((tag, wire, n)) => match server_field(current, tag, wire, bytes.skip(n as int)) {
                Some((next, m)) => merge_server(next, bytes.skip(n as int).skip(m as int)),
                None => None,
            },
            None => None,
        }
    }
}

#[via_fn]
proof fn merge_server_decreases(current: Option<ResponseView>, bytes: Seq<u8>) {
    lemma_field_bounds(bytes);
}

/// What `bytes` hold as a client message: the fields merged into an empty
/// message, or `None` where they are malformed.
pub open spec fn parse_client_message(bytes: Seq<u8>) -> Option<Option<RequestView>> {
    merge_client(None, bytes)
}

/// What `bytes` hold as a server message.
pub open spec fn parse_server_message(bytes: Seq<u8>) -> Option<Option<ResponseView>> {
    merge_server(None, bytes)
}

/// A length-delimited field: its key, the length of `body`, then `body`.
pub open spec fn framed_field(tag: u32, body: Seq<u8>) -> Seq<u8> {
    key_bytes(tag, WireType::LengthDelimited) + varint_bytes(body.len()) + body
}

/// An `int32` field: its key, then the value as a varint.
pub open spec fn int32_field(tag: u32, value: i32) -> Seq<u8> {
    key_bytes(tag, WireType::Varint) + varint_bytes(int32_as_varint(value) as nat)
}

/// An `int32` field, or nothing where the value is zero.
pub open spec fn optional_int32_field(tag: u32, value: i32) -> Seq<u8> {
    if value == 0 {
        Seq::empty()
    } else {
        int32_field(tag, value)
    }
}

/// The bytes of an echo message: its text as a string field, or nothing where
/// the text is empty.
pub open spec fn echo_bytes(text: Seq<char>) -> Seq<u8> {
    if text.len() == 0 {
        Seq::empty()
    } else {
        framed_field(CONTENT_FIELD, encode_utf8(text))
    }
}

/// The bytes of an add request: each operand that is not zero, first `a`.
pub open spec fn add_request_bytes(a: i32, b: i32) -> Seq<u8> {
    optional_int32_field(A_FIELD, a) + optional_int32_field(B_FIELD, b)
}

/// The bytes of an add response: the sum, unless it is zero.
pub open spec fn add_response_bytes(result: i32) -> Seq<u8> {
    optional_int32_field(RESULT_FIELD, result)
}

/// The bytes of a client message: its request as an embedded message, or
/// nothing where it has none.
pub open spec fn client_message_bytes(message: Option<RequestView>) -> Seq<u8> {
    match message {
        Some(RequestView::Echo(text)) => framed_field(ECHO_FIELD, echo_bytes(text)),
        Some(RequestView::Add(a, b)) => framed_field(ADD_FIELD, add_request_bytes(a, b)),
        None => Seq::empty(),
    }
}

/// The bytes of a server message: its response as an embedded message, or
/// nothing where it has none.
pub open spec fn server_message_bytes(message: Option<ResponseView>) -> Seq<u8> {
    match message {
        Some(ResponseView::Echo(text)) => framed_field(ECHO_FIELD, echo_bytes(text)),
        Some(ResponseView::Add(result)) => framed_field(ADD_FIELD, add_response_bytes(result)),
        None => Seq::empty(),
    }
}

/// Whether a text is short enough to be written: the bytes of an echo message
/// that carries it have a length that fits in 64 bits. The text of every
/// `String` is.
pub open spec fn text_fits(text: Seq<char>) -> bool {
    echo_bytes(text).len() <= u64::MAX
}

/// Whether a request can be written: its text, if it has one, fits.
pub open spec fn request_fits(message: Option<RequestView>) -> bool {
    match message {
        Some(RequestView::Echo(text)) => text_fits(text),
        _ => true,
    }
}

/// Whether a response can be written: its text, if it has one, fits.
pub open spec fn response_fits(message: Option<ResponseView>) -> bool {
    match message {
        Some(ResponseView::Echo(text)) => text_fits(text),
        _ => true,
    }
}

/// A key takes at least one byte, and neither a key nor any payload after it
/// reaches past the end of the bytes.
pub proof fn lemma_field_bounds(bytes: Seq<u8>)
    ensures
        match parse_key(bytes) {
            Some((tag, wire, n)) => {
                &&& 1 <= n <= bytes.len()
                &&& match field_extent(wire, tag, bytes.skip(n as int)) {
                    Some(m) => m <= bytes.len() - n,
                    None => true,
                }
                &&& match parse_embedded(wire, bytes.skip(n as int)) {
                    Some((framed, m)) => m <= bytes.len() - n && framed.len() <= m,
                    None => true,
                }
                &&& match parse_text(wire, bytes.skip(n as int)) {
                    Some((_, m)) => m <= bytes.len() - n,
                    None => true,
                }
                &&& match parse_int32(wire, bytes.skip(n as int)) {
                    Some((_, m)) => m <= bytes.len() - n,
                    None => true,
                }
            },
            None => true,
        },
{
    lemma_base128_extent(bytes);
    match parse_key(bytes) {
        Some((tag, wire, n)) => {
            lemma_base128_extent(bytes.skip(n as int));
        },
        None => {},
    }
}

} // verus!
