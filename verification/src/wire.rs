//! The protobuf wire format below the level of messages: base-128 integers,
//! field keys, and stepping over a field that is not wanted.
//!
//! The integers themselves are read and written by `prost`; this module states
//! what those calls do and builds keys and field skipping on top of them.
use vstd::prelude::*;

verus! {

/// The smallest field number a key may carry.
pub const MIN_TAG: u32 = 1;

/// The largest field number a key may carry.
pub const MAX_TAG: u32 = 0x1FFF_FFFF;

/// How the payload that follows a key is laid out.
#[derive(Clone, Copy, Debug, PartialEq, Eq, Structural)]
pub enum WireType {
    Varint,
    SixtyFourBit,
    LengthDelimited,
    StartGroup,
    EndGroup,
    ThirtyTwoBit,
}

impl WireType {
    /// The number that stands for this wire type in the low three bits of a key.
    pub open spec fn number(self) -> nat {
        match self {
            WireType::Varint => 0,
            WireType::SixtyFourBit => 1,
            WireType::LengthDelimited => 2,
            WireType::StartGroup => 3,
            WireType::EndGroup => 4,
            WireType::ThirtyTwoBit => 5,
        }
    }

    /// The wire type that a number stands for; numbers above 5 stand for none.
    pub open spec fn of_number(n: nat) -> Option<WireType> {
        if n == 0 {
            Some(WireType::Varint)
        } else if n == 1 {
            Some(WireType::SixtyFourBit)
        } else if n == 2 {
            Some(WireType::LengthDelimited)
        } else if n == 3 {
            Some(WireType::StartGroup)
        } else if n == 4 {
            Some(WireType::EndGroup)
        } else if n == 5 {
            Some(WireType::ThirtyTwoBit)
        } else {
            None
        }
    }

    /// The number of this wire type.
    pub fn code(self) -> (n: u32)
        ensures
            n == self.number(),
    {
        match self {
            WireType::Varint => 0,
            WireType::SixtyFourBit => 1,
            WireType::LengthDelimited => 2,
            WireType::StartGroup => 3,
            WireType::EndGroup => 4,
            WireType::ThirtyTwoBit => 5,
        }
    }

    /// The wire type with the given number, if there is one.
    pub fn from_code(n: u64) -> (w: Option<WireType>)
        ensures
            w == WireType::of_number(n as nat),
    {
        if n == 0 {
            Some(WireType::Varint)
        } else if n == 1 {
            Some(WireType::SixtyFourBit)
        } else if n == 2 {
            Some(WireType::LengthDelimited)
        } else if n == 3 {
            Some(WireType::StartGroup)
        } else if n == 4 {
            Some(WireType::EndGroup)
        } else if n == 5 {
            Some(WireType::ThirtyTwoBit)
        } else {
            None
        }
    }
}

/// The base-128 encoding of a number: seven bits per byte, least significant
/// group first, the high bit set on every byte but the last.
pub open spec fn varint_bytes(value: nat) -> Seq<u8>
    decreases value,
{
    if value < 128 {
        seq![value as u8]
    } else {
        seq![(128 + value % 128) as u8] + varint_bytes(value / 128)
    }
}

/// The number that starts `bytes` in base-128 and how many bytes it takes,
/// with no limit on either. `None` when every byte has its high bit set.
pub open spec fn base128(bytes: Seq<u8>) -> Option<(nat, nat)>
    decreases bytes.len(),
{
    if bytes.len() == 0 {
        None
    } else if bytes[0] < 128 {
        Some((bytes[0] as nat, 1))
    } else {
        match base128(bytes.skip(1)) {
            Some((high, n)) => Some(((bytes[0] - 128 + 128 * high) as nat, n + 1)),
            None => None,
        }
    }
}

/// The 64-bit varint that starts `bytes`, with its length: a base-128 number of
/// at most ten bytes whose value fits in 64 bits.
pub open spec fn parse_varint(bytes: Seq<u8>) -> Option<(u64, nat)> {
    match base128(bytes) {
        Some((value, n)) => if n <= 10 && value <= u64::MAX {
            Some((value as u64, n))
        } else {
            None
        },
        None => None,
    }
}

/// The bytes of the key of field `tag` with the given wire type.
pub open spec fn key_bytes(tag: u32, wire: WireType) -> Seq<u8> {
    varint_bytes(tag as nat * 8 + wire.number())
}

/// The key that starts `bytes`: its field number, its wire type and its
/// length. A key is a varint that fits in 32 bits, names one of the six wire
/// types and carries a field number of at least 1.
pub open spec fn parse_key(bytes: Seq<u8>) -> Option<(u32, WireType, nat)> {
    match parse_varint(bytes) {
        Some((key, n)) => if key <= u32::MAX && key / 8 >= 1 {
            match WireType::of_number((key % 8) as nat) {
                Some(wire) => Some(((key / 8) as u32, wire, n)),
                None => None,
            }
        } else {
            None
        },
        None => None,
    }
}

/// How many bytes the payload of a field of the given wire type takes at the
/// start of `bytes`, for every wire type but the start of a group.
pub open spec fn plain_extent(wire: WireType, bytes: Seq<u8>) -> Option<nat> {
    match wire {
        WireType::Varint => match parse_varint(bytes) {
            Some((_, n)) => Some(n),
            None => None,
        },
        WireType::SixtyFourBit => if bytes.len() >= 8 {
            Some(8)
        } else {
            None
        },
        WireType::ThirtyTwoBit => if bytes.len() >= 4 {
            Some(4)
        } else {
            None
        },
        WireType::LengthDelimited => match parse_varint(bytes) {
            Some((len, n)) => if len <= bytes.len() - n {
                Some((n + len) as nat)
            } else {
                None
            },
            None => None,
        },
        WireType::StartGroup => None,
        WireType::EndGroup => None,
    }
}

/// How many bytes of `bytes` are left unread once the group opened by field
/// `tag` has been stepped over, or `None` where the group is malformed. This is
/// what `prost::encoding::skip_field` decides for a field of wire type
/// `StartGroup`.
pub uninterp spec fn unread_after_group(tag: u32, bytes: Seq<u8>) -> Option<usize>;

/// How many bytes the payload of an unwanted field takes at the start of
/// `bytes`.
pub open spec fn field_extent(wire: WireType, tag: u32, bytes: Seq<u8>) -> Option<nat> {
    if wire is StartGroup {
        match unread_after_group(tag, bytes) {
            Some(rest) => if rest <= bytes.len() {
                Some((bytes.len() - rest) as nat)
            } else {
                None
            },
            None => None,
        }
    } else {
        plain_extent(wire, bytes)
    }
}

/// Appends the base-128 encoding of `value` to `out`.
///
/// Calls `prost::encoding::encode_varint`, which pushes the low seven bits of
/// the value with the high bit set while more than seven bits are left, then
/// the last group with the high bit clear. The contract claims exactly those
/// bytes, after what `out` held, written here with `%` and `/` in place of
/// masks and shifts.
#[verifier::external_body]
pub(crate) fn put_varint(value: u64, out: &mut Vec<u8>)
    ensures
        final(out)@ == old(out)@ + varint_bytes(value as nat),
{
    prost::encoding::encode_varint(value, out)
}

/// Reads the varint at the start of `input` and returns its value with the
/// number of bytes that follow it.
///
/// Calls `prost::encoding::decode_varint`. It accepts a run of at most ten
/// bytes that ends with the first byte below 128, and refuses a tenth byte
/// above 1, which would carry bits past the 64th. The contract claims success
/// exactly then, the value those bytes spell, and that the bytes left over are
/// the input less the run.
#[verifier::external_body]
pub(crate) fn take_varint(input: &[u8]) -> (r: Option<(u64, usize)>)
    ensures
        match parse_varint(input@) {
            Some((value, n)) => r == Some((value, (input.len() - n) as usize)),
            None => r is None,
        },
{
    let mut rest: &[u8] = input;
    match prost::encoding::decode_varint(&mut rest) {
        Ok(value) => Some((value, rest.len())),
        Err(_) => None,
    }
}

/// Steps over the payload of a field and returns how many bytes follow it.
///
/// Calls `prost::encoding::skip_field` with a fresh decode context. For a
/// varint it reads the varint; for the fixed widths it steps over 4 or 8
/// bytes; for a length-delimited field it reads the length and steps over that
/// many bytes; an end-of-group key with no group open is an error. Each fails
/// where the input is too short. A group is read field by field until its end
/// key: of that the contract says only that the outcome is a function of the
/// field number and the input, and that no more is consumed than there is.
#[verifier::external_body]
pub(crate) fn drop_field(wire: WireType, tag: u32, input: &[u8]) -> (r: Option<usize>)
    ensures
        wire is StartGroup ==> r == unread_after_group(tag, input@),
        !(wire is StartGroup) ==> r == match plain_extent(wire, input@) {
            Some(n) => Some((input.len() - n) as usize),
            None => None,
        },
        r is Some ==> r.unwrap() <= input.len(),
{
    let mut rest: &[u8] = input;
    let outside = match wire {
        WireType::Varint => prost::encoding::WireType::Varint,
        WireType::SixtyFourBit => prost::encoding::WireType::SixtyFourBit,
        WireType::LengthDelimited => prost::encoding::WireType::LengthDelimited,
        WireType::StartGroup => prost::encoding::WireType::StartGroup,
        WireType::EndGroup => prost::encoding::WireType::EndGroup,
        WireType::ThirtyTwoBit => prost::encoding::WireType::ThirtyTwoBit,
    };
    match prost::encoding::skip_field(outside, tag, &mut rest, Default::default()) {
        Ok(()) => Some(rest.len()),
        Err(_) => None,
    }
}

/// Reads the varint at the start of `input`: its value and its length.
pub fn read_varint(input: &[u8]) -> (r: Option<(u64, usize)>)
    ensures
        r == match parse_varint(input@) {
            Some((value, n)) => Some((value, n as usize)),
            None => None,
        },
{
    proof {
        lemma_base128_extent(input@);
    }
    match take_varint(input) {
        Some((value, rest)) => Some((value, input.len() - rest)),
        None => None,
    }
}

/// Reads the key at the start of `input`: its field number, its wire type and
/// its length.
pub fn read_key(input: &[u8]) -> (r: Option<(u32, WireType, usize)>)
    ensures
        r == match parse_key(input@) {
            Some((tag, wire, n)) => Some((tag, wire, n as usize)),
            None => None,
        },
{
    match read_varint(input) {
        None => None,
        Some((key, n)) => {
            if key > 0xFFFF_FFFF || key / 8 < 1 {
                None
            } else {
                match WireType::from_code(key % 8) {
                    Some(wire) => Some(((key / 8) as u32, wire, n)),
                    None => None,
                }
            }
        },
    }
}

/// Appends the key of field `tag` with the given wire type to `out`.
pub fn write_key(tag: u32, wire: WireType, out: &mut Vec<u8>)
    requires
        MIN_TAG <= tag <= MAX_TAG,
    ensures
        final(out)@ == old(out)@ + key_bytes(tag, wire),
{
    let key: u64 = (tag as u64) * 8 + (wire.code() as u64);
    put_varint(key, out);
}

/// Measures the payload of an unwanted field at the start of `input`, so that
/// the caller can step over it. `None` where the payload is cut short or
/// malformed.
pub fn skip_field(wire: WireType, tag: u32, input: &[u8]) -> (r: Option<usize>)
    ensures
        r == match field_extent(wire, tag, input@) {
            Some(n) => Some(n as usize),
            None => None,
        },
        r is Some ==> r.unwrap() <= input.len(),
{
    proof {
        lemma_base128_extent(input@);
    }
    match drop_field(wire, tag, input) {
        Some(rest) => Some(input.len() - rest),
        None => None,
    }
}

/// A base-128 number takes at least one byte and no more than there are.
pub proof fn lemma_base128_extent(bytes: Seq<u8>)
    ensures
        match base128(bytes) {
            Some((_, n)) => 1 <= n <= bytes.len(),
            None => true,
        },
    decreases bytes.len(),
{
    if bytes.len() > 0 && bytes[0] >= 128 {
        lemma_base128_extent(bytes.skip(1));
    }
}

/// Reading what was written gives the number back, whatever follows it.
pub proof fn lemma_base128_of_varint_bytes(value: nat, rest: Seq<u8>)
    ensures
        base128(varint_bytes(value) + rest) == Some((value, varint_bytes(value).len())),
    decreases value,
{
    let all = varint_bytes(value) + rest;
    if value < 128 {
        assert(all[0] == value as u8);
    } else {
        let tail = varint_bytes(value / 128);
        assert(all[0] == (128 + value % 128) as u8);
        assert(all.skip(1) =~= tail + rest);
        lemma_base128_of_varint_bytes(value / 128, rest);
    }
}

/// 128 to the power `k`.
pub open spec fn pow128(k: nat) -> nat
    decreases k,
{
    if k == 0 {
        1
    } else {
        128 * pow128((k - 1) as nat)
    }
}

/// A number below 128^k is written in at most `k` bytes.
pub proof fn lemma_varint_bytes_len(value: nat, k: nat)
    requires
        k >= 1,
        value < pow128(k),
    ensures
        1 <= varint_bytes(value).len() <= k,
    decreases value,
{
    reveal_with_fuel(pow128, 2);
    if value >= 128 {
        assert(k >= 2);
        lemma_varint_bytes_len(value / 128, (k - 1) as nat);
    }
}

/// A 64-bit number is written in at most ten bytes, and read back as itself.
pub proof fn lemma_varint_round_trip(value: u64, rest: Seq<u8>)
    ensures
        1 <= varint_bytes(value as nat).len() <= 10,
        parse_varint(varint_bytes(value as nat) + rest) == Some(
            (value, varint_bytes(value as nat).len()),
        ),
{
    reveal_with_fuel(pow128, 11);
    assert(pow128(10) == 0x40_0000_0000_0000_0000);
    lemma_varint_bytes_len(value as nat, 10);
    lemma_base128_of_varint_bytes(value as nat, rest);
}

} // verus!
