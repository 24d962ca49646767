//! Round trips through the byte form: what is written is read back as it
//! was.
use crate::message::{answer, RequestView, ResponseView};
use crate::schema::{
    add_request_bytes, add_response_bytes, client_message_bytes, echo_bytes, framed_field,
    int32_as_varint, int32_field, merge_add_request, merge_add_response, merge_client,
    merge_echo, merge_server, optional_int32_field, parse_client_message, parse_embedded,
    parse_int32, parse_server_message, request_fits, response_fits, server_message_bytes,
    text_fits, varint_as_int32, ADD_FIELD, A_FIELD, B_FIELD, CONTENT_FIELD, ECHO_FIELD,
    RESULT_FIELD,
};
use crate::wire::{
    key_bytes, lemma_varint_round_trip, parse_key, varint_bytes, WireType, MAX_TAG, MIN_TAG,
};
use vstd::prelude::*;
use vstd::utf8::encode_utf8;

verus! {

/// A key that was written is read back as the same field number and wire
/// type, whatever follows it.
pub proof fn lemma_key_round_trip(tag: u32, wire: WireType, rest: Seq<u8>)
    requires
        MIN_TAG <= tag <= MAX_TAG,
    ensures
        parse_key(key_bytes(tag, wire) + rest) == Some(
            (tag, wire, key_bytes(tag, wire).len()),
        ),
{
    let key = (tag as nat * 8 + wire.number()) as u64;
    lemma_varint_round_trip(key, rest);
    assert(key / 8 == tag);
    assert(key % 8 == wire.number());
}

/// An `int32` survives the trip through its 64-bit wire form.
pub proof fn lemma_int32_round_trip(value: i32)
    ensures
        varint_as_int32(int32_as_varint(value)) == value,
{
}

/// A length-delimited field that was written is read back as the same field
/// number framing the same bytes, and what followed it is what is left.
pub proof fn lemma_framed_field_round_trip(tag: u32, body: Seq<u8>, rest: Seq<u8>)
    requires
        MIN_TAG <= tag <= MAX_TAG,
        body.len() <= u64::MAX,
    ensures
        ({
            let bytes = framed_field(tag, body) + rest;
            let n = key_bytes(tag, WireType::LengthDelimited).len();
            let m = varint_bytes(body.len()).len() + body.len();
            &&& parse_key(bytes) == Some((tag, WireType::LengthDelimited, n))
            &&& parse_embedded(WireType::LengthDelimited, bytes.skip(n as int)) == Some(
                (body, m),
            )
            &&& bytes.skip(n as int).skip(m as int) == rest
            &&& bytes.len() > 0
        }),
{
    let key = key_bytes(tag, WireType::LengthDelimited);
    let len = varint_bytes(body.len());
    let bytes = framed_field(tag, body) + rest;
    let payload = len + (body + rest);
    assert(bytes =~= key + payload);
    lemma_key_round_trip(tag, WireType::LengthDelimited, payload);
    assert(bytes.skip(key.len() as int) =~= payload);
    lemma_varint_round_trip(body.len() as u64, body + rest);
    assert(payload.subrange(len.len() as int, (len.len() + body.len()) as int) =~= body);
    assert(payload.skip((len.len() + body.len()) as int) =~= rest);
}

/// An `int32` field that was written is read back as the same field number
/// and value, and what followed it is what is left.
pub proof fn lemma_int32_field_round_trip(tag: u32, value: i32, rest: Seq<u8>)
    requires
        MIN_TAG <= tag <= MAX_TAG,
    ensures
        ({
            let bytes = int32_field(tag, value) + rest;
            let n = key_bytes(tag, WireType::Varint).len();
            let m = varint_bytes(int32_as_varint(value) as nat).len();
            &&& parse_key(bytes) == Some((tag, WireType::Varint, n))
            &&& parse_int32(WireType::Varint, bytes.skip(n as int)) == Some((value, m))
            &&& bytes.skip(n as int).skip(m as int) == rest
            &&& bytes.len() > 0
        }),
{
    let key = key_bytes(tag, WireType::Varint);
    let number = varint_bytes(int32_as_varint(value) as nat);
    let bytes = int32_field(tag, value) + rest;
    let payload = number + rest;
    assert(bytes =~= key + payload);
    lemma_key_round_trip(tag, WireType::Varint, payload);
    assert(bytes.skip(key.len() as int) =~= payload);
    lemma_varint_round_trip(int32_as_varint(value), rest);
    lemma_int32_round_trip(value);
    assert(payload.skip(number.len() as int) =~= rest);
}

/// The bytes of an echo message, read into an empty one, give its text back.
pub proof fn lemma_echo_round_trip(text: Seq<char>)
    requires
        text_fits(text),
    ensures
        merge_echo(Seq::empty(), echo_bytes(text)) == Some(text),
{
    reveal_with_fuel(merge_echo, 2);
    if text.len() == 0 {
        assert(text =~= Seq::<char>::empty());
    } else {
        let body = encode_utf8(text);
        let bytes = framed_field(CONTENT_FIELD, body);
        assert(bytes + Seq::<u8>::empty() =~= bytes);
        lemma_framed_field_round_trip(CONTENT_FIELD, body, Seq::empty());
        vstd::utf8::encode_utf8_valid_utf8(text);
        vstd::utf8::encode_utf8_decode_utf8(text);
    }
}

/// The bytes of an add request, read into one of zeros, give its operands
/// back.
pub proof fn lemma_add_request_round_trip(a: i32, b: i32)
    ensures
        merge_add_request((0, 0), add_request_bytes(a, b)) == Some((a, b)),
{
    reveal_with_fuel(merge_add_request, 3);
    let second = optional_int32_field(B_FIELD, b);
    assert(merge_add_request((a, 0), second) == Some((a, b))) by {
        if b != 0 {
            assert(second + Seq::<u8>::empty() =~= second);
            lemma_int32_field_round_trip(B_FIELD, b, Seq::empty());
        }
    }
    if a != 0 {
        lemma_int32_field_round_trip(A_FIELD, a, second);
    } else {
        assert(add_request_bytes(a, b) =~= second);
        if b != 0 {
            assert(second + Seq::<u8>::empty() =~= second);
            lemma_int32_field_round_trip(B_FIELD, b, Seq::empty());
        }
    }
}

/// The bytes of an add response, read into one of zero, give its sum back.
pub proof fn lemma_add_response_round_trip(result: i32)
    ensures
        merge_add_response(0, add_response_bytes(result)) == Some(result),
{
    reveal_with_fuel(merge_add_response, 2);
    if result != 0 {
        let bytes = int32_field(RESULT_FIELD, result);
        assert(bytes + Seq::<u8>::empty() =~= bytes);
        lemma_int32_field_round_trip(RESULT_FIELD, result, Seq::empty());
    }
}

/// Reading what was written gives the client message back: the kind of
/// request and all it carries survive the trip.
pub proof fn lemma_client_message_round_trip(message: Option<RequestView>)
    requires
        request_fits(message),
    ensures
        parse_client_message(client_message_bytes(message)) == Some(message),
{
    reveal_with_fuel(merge_client, 2);
    match message {
        Some(RequestView::Echo(text)) => {
            let body = echo_bytes(text);
            let bytes = framed_field(ECHO_FIELD, body);
            assert(bytes + Seq::<u8>::empty() =~= bytes);
            lemma_framed_field_round_trip(ECHO_FIELD, body, Seq::empty());
            lemma_echo_round_trip(text);
        },
        Some(RequestView::Add(a, b)) => {
            let body = add_request_bytes(a, b);
            lemma_add_bytes_extent(a, b);
            let bytes = framed_field(ADD_FIELD, body);
            assert(bytes + Seq::<u8>::empty() =~= bytes);
            lemma_framed_field_round_trip(ADD_FIELD, body, Seq::empty());
            lemma_add_request_round_trip(a, b);
        },
        None => {},
    }
}

/// Reading what was written gives the server message back.
pub proof fn lemma_server_message_round_trip(message: Option<ResponseView>)
    requires
        response_fits(message),
    ensures
        parse_server_message(server_message_bytes(message)) == Some(message),
{
    reveal_with_fuel(merge_server, 2);
    match message {
        Some(ResponseView::Echo(text)) => {
            let body = echo_bytes(text);
            let bytes = framed_field(ECHO_FIELD, body);
            assert(bytes + Seq::<u8>::empty() =~= bytes);
            lemma_framed_field_round_trip(ECHO_FIELD, body, Seq::empty());
            lemma_echo_round_trip(text);
        },
        Some(ResponseView::Add(result)) => {
            let body = add_response_bytes(result);
            lemma_add_bytes_extent(result, 0);
            let bytes = framed_field(ADD_FIELD, body);
            assert(bytes + Seq::<u8>::empty() =~= bytes);
            lemma_framed_field_round_trip(ADD_FIELD, body, Seq::empty());
            lemma_add_response_round_trip(result);
        },
        None => {},
    }
}

/// A client message that carries a request is never written as no bytes at
/// all, so it is never taken for the end of the connection.
pub proof fn lemma_message_bytes_not_empty(request: RequestView)
    ensures
        client_message_bytes(Some(request)).len() > 0,
        server_message_bytes(Some(answer(request))).len() > 0,
{
    reveal_with_fuel(varint_bytes, 2);
}

/// The fields of an add request take at most 22 bytes, those of an add
/// response at most 11.
pub proof fn lemma_add_bytes_extent(a: i32, b: i32)
    ensures
        add_request_bytes(a, b).len() <= 22,
        add_response_bytes(a).len() <= 11,
{
    lemma_varint_round_trip(int32_as_varint(a), Seq::empty());
    lemma_varint_round_trip(int32_as_varint(b), Seq::empty());
    reveal_with_fuel(varint_bytes, 2);
}

} // verus!
