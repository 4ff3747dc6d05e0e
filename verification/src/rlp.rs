//! The length-prefixed encoding that the wire form of shadow transactions is
//! built from.
//!
//! An item is a byte string or a list. A single byte below `0x80` stands for
//! itself. Any other string of up to 55 bytes has one byte `0x80 + length`
//! in front; a longer one has `0xb7 + n` and the length in `n` big-endian
//! bytes. A list has the same two forms with `0xc0` and `0xf7`, in front of
//! the encodings of its items. A number is the string of its shortest
//! big-endian bytes. A decoder accepts only the one encoding that the
//! encoder produces.

use vstd::prelude::*;
use crate::big_endian::{
    be_value, has_leading_zero, lemma_be_value_bound, lemma_be_value_leading_zeros,
    lemma_min_be_bytes_canonical, lemma_min_be_bytes_len,
    lemma_min_be_bytes_of_value, lemma_min_be_bytes_value, lemma_pow256_monotonic,
    lemma_pow256_values, min_be_bytes, pow256,
};
use crate::fixed_bytes::{append_bytes, array_from_prefix, slice_from};
use crate::uint256::UInt256;

verus! {

/// Why a byte string is not the encoding of a value.
#[derive(Clone, Copy, Debug, PartialEq, Eq, Structural, Hash)]
pub enum DecodeError {
    /// A number has more bytes than its type holds.
    Overflow,
    /// A number or a length starts with a zero byte.
    LeadingZero,
    /// The input ends before the item does.
    InputTooShort,
    /// A single byte below `0x80` has a length byte in front.
    NonCanonicalSingleByte,
    /// A length below 56 is written in the long form.
    NonCanonicalSize,
    /// A string of a fixed length has another length.
    UnexpectedLength,
    /// A list was expected and a string was found.
    UnexpectedString,
    /// A string was expected and a list was found.
    UnexpectedList,
    /// The items of a list do not fill the length that its header gives.
    ListLengthMismatch,
    /// The type byte of a shadow transaction names no operation.
    UnknownShadowTypeId(u8),
}

/// The header of an item, as the decoder sees it.
#[derive(Clone, Copy, Debug, PartialEq, Eq)]
pub struct Header {
    /// Whether the item is a list.
    pub list: bool,
    /// The number of bytes of the payload.
    pub payload_length: usize,
    /// The number of bytes in front of the payload: zero for a single byte
    /// that stands for itself.
    pub header_length: usize,
}

/// What a `Header` holds, as plain values.
pub struct HeaderView {
    pub list: bool,
    pub payload_length: nat,
    pub header_length: nat,
}

impl View for Header {
    type V = HeaderView;

    open spec fn view(&self) -> HeaderView {
        HeaderView {
            list: self.list,
            payload_length: self.payload_length as nat,
            header_length: self.header_length as nat,
        }
    }
}

/// The first number that a length cannot be: two to the power 64.
pub open spec fn length_limit() -> nat {
    0x1_0000_0000_0000_0000
}

/// The bytes in front of a payload of `len` bytes.
pub open spec fn spec_header(list: bool, len: nat) -> Seq<u8> {
    if len < 56 {
        seq![((if list { 0xc0int } else { 0x80int }) + len) as u8]
    } else {
        let len_bytes = min_be_bytes(len);
        seq![((if list { 0xf7int } else { 0xb7int }) + len_bytes.len()) as u8] + len_bytes
    }
}

/// The encoding of a byte string.
pub open spec fn spec_encode_bytes(s: Seq<u8>) -> Seq<u8> {
    if s.len() == 1 && s[0] < 0x80 {
        s
    } else {
        spec_header(false, s.len()) + s
    }
}

/// The encoding of a number.
pub open spec fn spec_encode_uint(n: nat) -> Seq<u8> {
    spec_encode_bytes(min_be_bytes(n))
}

/// The encoding of a list whose items are encoded as `payload`.
pub open spec fn spec_encode_list(payload: Seq<u8>) -> Seq<u8> {
    spec_header(true, payload.len()) + payload
}

/// The header at the front of `s`, or why there is none.
pub open spec fn spec_decode_header(s: Seq<u8>) -> Result<HeaderView, DecodeError> {
    if s.len() == 0 {
        Err(DecodeError::InputTooShort)
    } else if s[0] < 0x80 {
        Ok(HeaderView { list: false, payload_length: 1, header_length: 0 })
    } else if s[0] <= 0xb7 {
        let len = (s[0] - 0x80) as nat;
        if len == 1 && s.len() < 2 {
            Err(DecodeError::InputTooShort)
        } else if len == 1 && s[1] < 0x80 {
            Err(DecodeError::NonCanonicalSingleByte)
        } else if s.len() - 1 < len {
            Err(DecodeError::InputTooShort)
        } else {
            Ok(HeaderView { list: false, payload_length: len, header_length: 1 })
        }
    } else if s[0] <= 0xbf || s[0] >= 0xf8 {
        let list = s[0] >= 0xf8;
        let len_of_len = (if list {
            s[0] - 0xf7
        } else {
            s[0] - 0xb7
        }) as nat;
        if s.len() - 1 < len_of_len {
            Err(DecodeError::InputTooShort)
        } else {
            let len_bytes = s.subrange(1, (1 + len_of_len) as int);
            if len_bytes[0] == 0 {
                Err(DecodeError::LeadingZero)
            } else if be_value(len_bytes) < 56 {
                Err(DecodeError::NonCanonicalSize)
            } else if s.len() - 1 - len_of_len < be_value(len_bytes) {
                Err(DecodeError::InputTooShort)
            } else {
                Ok(
                    HeaderView {
                        list,
                        payload_length: be_value(len_bytes),
                        header_length: 1 + len_of_len,
                    },
                )
            }
        }
    } else {
        let len = (s[0] - 0xc0) as nat;
        if s.len() - 1 < len {
            Err(DecodeError::InputTooShort)
        } else {
            Ok(HeaderView { list: true, payload_length: len, header_length: 1 })
        }
    }
}

/// The payload of the string at the front of `s` and the number of bytes
/// that the string takes, or why there is none.
pub open spec fn spec_decode_string(s: Seq<u8>) -> Result<(Seq<u8>, nat), DecodeError> {
    match spec_decode_header(s) {
        Err(e) => Err(e),
        Ok(h) => if h.list {
            Err(DecodeError::UnexpectedList)
        } else {
            Ok(
                (
                    s.subrange(
                        h.header_length as int,
                        (h.header_length + h.payload_length) as int,
                    ),
                    h.header_length + h.payload_length,
                ),
            )
        },
    }
}

/// The string of exactly `n` bytes at the front of `s` and the number of
/// bytes that it takes, or why there is none.
pub open spec fn spec_decode_fixed(s: Seq<u8>, n: nat) -> Result<(Seq<u8>, nat), DecodeError> {
    match spec_decode_string(s) {
        Err(e) => Err(e),
        Ok((payload, consumed)) => if payload.len() != n {
            Err(DecodeError::UnexpectedLength)
        } else {
            Ok((payload, consumed))
        },
    }
}

/// The number of at most 64 bits at the front of `s` and the number of
/// bytes that it takes, or why there is none.
pub open spec fn spec_decode_u64(s: Seq<u8>) -> Result<(u64, nat), DecodeError> {
    match spec_decode_string(s) {
        Err(e) => Err(e),
        Ok((payload, consumed)) => if payload.len() > 8 {
            Err(DecodeError::Overflow)
        } else if has_leading_zero(payload) {
            Err(DecodeError::LeadingZero)
        } else {
            Ok((be_value(payload) as u64, consumed))
        },
    }
}

/// The number of at most 256 bits at the front of `s` and the number of
/// bytes that it takes, or why there is none.
pub open spec fn spec_decode_uint256(s: Seq<u8>) -> Result<(nat, nat), DecodeError> {
    match spec_decode_string(s) {
        Err(e) => Err(e),
        Ok((payload, consumed)) => if has_leading_zero(payload) {
            Err(DecodeError::LeadingZero)
        } else if payload.len() > 32 {
            Err(DecodeError::Overflow)
        } else {
            Ok((be_value(payload), consumed))
        },
    }
}

/// The length of the payload of the list at the front of `s` and the
/// number of bytes in front of that payload, or why there is none.
pub open spec fn spec_decode_list_header(s: Seq<u8>) -> Result<(nat, nat), DecodeError> {
    match spec_decode_header(s) {
        Err(e) => Err(e),
        Ok(h) => if !h.list {
            Err(DecodeError::UnexpectedString)
        } else {
            Ok((h.payload_length, h.header_length))
        },
    }
}

/// Appends the shortest big-endian bytes of `x`.
fn push_min_be(out: &mut Vec<u8>, x: u64)
    ensures
        final(out)@ == old(out)@ + min_be_bytes(x as nat),
    decreases x,
{
    if x != 0 {
        push_min_be(out, x / 256);
        out.push((x % 256) as u8);
        proof {
            assert(out@ =~= old(out)@ + min_be_bytes(x as nat));
        }
    } else {
        assert(out@ =~= old(out)@ + min_be_bytes(0));
    }
}

/// The number of the shortest big-endian bytes of `x`.
fn min_be_length(x: u64) -> (r: usize)
    ensures
        r == min_be_bytes(x as nat).len(),
        r <= 8,
    decreases x,
{
    proof {
        assert(pow256(8) == 0x1_0000_0000_0000_0000) by {
            reveal_with_fuel(pow256, 9);
        }
        lemma_min_be_bytes_len(x as nat, 8);
    }
    if x != 0 {
        min_be_length(x / 256) + 1
    } else {
        0
    }
}

/// A payload of fewer than 256 bytes has at most two bytes in front.
pub proof fn lemma_short_header(list: bool, len: nat)
    requires
        len < 256,
    ensures
        spec_header(list, len).len() <= 2,
{
    reveal_with_fuel(pow256, 2);
    lemma_min_be_bytes_len(len, 1);
}

/// The number of bytes in front of a payload of `len` bytes.
pub fn header_length(len: usize) -> (r: usize)
    ensures
        r == spec_header(false, len as nat).len(),
        r == spec_header(true, len as nat).len(),
        1 <= r <= 9,
{
    if len < 56 {
        1
    } else {
        1 + min_be_length(len as u64)
    }
}

/// Appends the bytes that stand in front of a payload of `len` bytes.
pub fn encode_header(out: &mut Vec<u8>, list: bool, len: usize)
    ensures
        final(out)@ == old(out)@ + spec_header(list, len as nat),
{
    if len < 56 {
        let code: u8 = if list {
            0xc0
        } else {
            0x80
        };
        out.push(code + len as u8);
        proof {
            assert(out@ =~= old(out)@ + spec_header(list, len as nat));
        }
    } else {
        let code: u8 = if list {
            0xf7
        } else {
            0xb7
        };
        let n = min_be_length(len as u64);
        out.push(code + n as u8);
        push_min_be(out, len as u64);
        proof {
            assert(out@ =~= old(out)@ + spec_header(list, len as nat));
        }
    }
}

/// The number of bytes of the encoding of a byte string.
pub fn bytes_length(s: &[u8]) -> (r: usize)
    requires
        s@.len() + 9 <= usize::MAX,
    ensures
        r == spec_encode_bytes(s@).len(),
{
    if s.len() == 1 && s[0] < 0x80 {
        1
    } else {
        header_length(s.len()) + s.len()
    }
}

/// Appends the encoding of a byte string.
pub fn encode_bytes(out: &mut Vec<u8>, s: &[u8])
    ensures
        final(out)@ == old(out)@ + spec_encode_bytes(s@),
{
    if s.len() == 1 && s[0] < 0x80 {
        append_bytes(out, s);
    } else {
        encode_header(out, false, s.len());
        append_bytes(out, s);
        proof {
            assert(out@ =~= old(out)@ + spec_encode_bytes(s@));
        }
    }
}

/// A number has a single big-endian byte below `0x80` exactly where it is
/// positive and below `0x80`, and that byte is the number.
pub proof fn lemma_small_number_bytes(n: nat)
    ensures
        (min_be_bytes(n).len() == 1 && min_be_bytes(n)[0] < 0x80) <==> 0 < n < 0x80,
        0 < n < 0x80 ==> min_be_bytes(n) == seq![n as u8],
{
    let bytes = min_be_bytes(n);
    lemma_min_be_bytes_value(n);
    lemma_min_be_bytes_canonical(n);
    if bytes.len() == 1 {
        crate::big_endian::lemma_be_value_single(bytes[0]);
        assert(bytes =~= seq![bytes[0]]);
    }
    if 0 < n < 0x80 {
        reveal_with_fuel(min_be_bytes, 2);
        assert(n / 256 == 0);
        assert(bytes =~= seq![n as u8]);
    }
}

/// The number of bytes of the encoding of a number of 64 bits.
pub fn u64_length(x: u64) -> (r: usize)
    ensures
        r == spec_encode_uint(x as nat).len(),
        1 <= r <= 9,
{
    let n = min_be_length(x);
    proof {
        lemma_small_number_bytes(x as nat);
    }
    if x != 0 && x < 0x80 {
        1
    } else {
        1 + n
    }
}

/// Appends the encoding of a number of 64 bits.
pub fn encode_u64(out: &mut Vec<u8>, x: u64)
    ensures
        final(out)@ == old(out)@ + spec_encode_uint(x as nat),
{
    let mut bytes: Vec<u8> = Vec::new();
    push_min_be(&mut bytes, x);
    proof {
        assert(bytes@ =~= min_be_bytes(x as nat));
    }
    encode_bytes(out, bytes.as_slice());
}

/// The index of the first byte of the number that is not zero, or 32.
fn leading_zero_bytes(x: &UInt256) -> (k: usize)
    ensures
        k <= 32,
        x.bytes@.skip(k as int) == min_be_bytes(x@),
{
    let mut k: usize = 0;
    while k < 32 && x.bytes[k] == 0
        invariant
            k <= 32,
            forall|j: int| 0 <= j < k ==> x.bytes@[j] == 0,
        decreases 32 - k,
    {
        k = k + 1;
    }
    proof {
        let zeros = x.bytes@.take(k as int);
        let rest = x.bytes@.skip(k as int);
        assert(x.bytes@ =~= zeros + rest);
        lemma_be_value_leading_zeros(zeros, rest);
        lemma_min_be_bytes_of_value(rest);
    }
    k
}

/// The number of bytes of the encoding of a number of 256 bits.
pub fn uint256_length(x: &UInt256) -> (r: usize)
    ensures
        r == spec_encode_uint(x@).len(),
        1 <= r <= 33,
{
    let k = leading_zero_bytes(x);
    let trimmed = slice_from(x.bytes.as_slice(), k);
    bytes_length(trimmed)
}

/// Appends the encoding of a number of 256 bits.
pub fn encode_uint256(out: &mut Vec<u8>, x: &UInt256)
    ensures
        final(out)@ == old(out)@ + spec_encode_uint(x@),
{
    let k = leading_zero_bytes(x);
    let trimmed = slice_from(x.bytes.as_slice(), k);
    encode_bytes(out, trimmed);
}

/// An item whose header is accepted lies within the input, and has at
/// least one byte.
pub proof fn lemma_header_fits(s: Seq<u8>)
    ensures
        spec_decode_header(s) matches Ok(h) ==> 1 <= h.header_length + h.payload_length
            <= s.len() && h.header_length <= 9,
{
}

/// A string that the decoder accepts lies within the input, and takes at
/// least one byte.
pub proof fn lemma_string_fits(s: Seq<u8>)
    ensures
        spec_decode_string(s) matches Ok((payload, consumed)) ==> 1 <= consumed <= s.len(),
        forall|n: nat|
            (#[trigger] spec_decode_fixed(s, n)) matches Ok((payload, consumed)) ==> 1
                <= consumed <= s.len(),
        spec_decode_u64(s) matches Ok((value, consumed)) ==> 1 <= consumed <= s.len(),
        spec_decode_uint256(s) matches Ok((value, consumed)) ==> 1 <= consumed <= s.len(),
{
    lemma_header_fits(s);
}

/// The number that at most eight big-endian bytes denote.
fn be_to_u64(s: &[u8]) -> (r: u64)
    requires
        s@.len() <= 8,
    ensures
        r == be_value(s@),
{
    let mut r: u64 = 0;
    let mut i: usize = 0;
    proof {
        assert(s@.take(0) =~= Seq::<u8>::empty());
    }
    while i < s.len()
        invariant
            i <= s@.len() <= 8,
            r == be_value(s@.take(i as int)),
        decreases s@.len() - i,
    {
        proof {
            lemma_be_value_bound(s@.take(i as int));
            lemma_pow256_monotonic(i as nat, 7);
            lemma_pow256_values();
            assert(s@.take(i + 1).drop_last() =~= s@.take(i as int));
        }
        r = r * 256 + s[i] as u64;
        i = i + 1;
    }
    proof {
        assert(s@.take(s@.len() as int) =~= s@);
    }
    r
}

/// Reads the header at the front of `buf`.
pub fn decode_header(buf: &[u8]) -> (r: Result<Header, DecodeError>)
    ensures
        match spec_decode_header(buf@) {
            Ok(h) => r matches Ok(x) && x@ == h,
            Err(e) => r == Err::<Header, DecodeError>(e),
        },
        r matches Ok(x) ==> x.header_length + x.payload_length <= usize::MAX,
{
    proof {
        lemma_header_fits(buf@);
    }
    if buf.len() == 0 {
        return Err(DecodeError::InputTooShort);
    }
    let b = buf[0];
    if b < 0x80 {
        Ok(Header { list: false, payload_length: 1, header_length: 0 })
    } else if b <= 0xb7 {
        let len = (b - 0x80) as usize;
        if len == 1 && buf.len() < 2 {
            Err(DecodeError::InputTooShort)
        } else if len == 1 && buf[1] < 0x80 {
            Err(DecodeError::NonCanonicalSingleByte)
        } else if buf.len() - 1 < len {
            Err(DecodeError::InputTooShort)
        } else {
            Ok(Header { list: false, payload_length: len, header_length: 1 })
        }
    } else if b <= 0xbf || b >= 0xf8 {
        let list = b >= 0xf8;
        let len_of_len = (if list {
            b - 0xf7
        } else {
            b - 0xb7
        }) as usize;
        if buf.len() - 1 < len_of_len {
            return Err(DecodeError::InputTooShort);
        }
        let len_bytes = vstd::slice::slice_subrange(buf, 1, 1 + len_of_len);
        if len_bytes[0] == 0 {
            return Err(DecodeError::LeadingZero);
        }
        let len = be_to_u64(len_bytes);
        if len < 56 {
            Err(DecodeError::NonCanonicalSize)
        } else if ((buf.len() - 1 - len_of_len) as u64) < len {
            Err(DecodeError::InputTooShort)
        } else {
            Ok(Header { list, payload_length: len as usize, header_length: 1 + len_of_len })
        }
    } else {
        let len = (b - 0xc0) as usize;
        if buf.len() - 1 < len {
            Err(DecodeError::InputTooShort)
        } else {
            Ok(Header { list: true, payload_length: len, header_length: 1 })
        }
    }
}

/// Reads the string at the front of `buf`. Returns its payload and the
/// bytes that follow the string.
pub fn decode_string<'a>(buf: &'a [u8]) -> (r: Result<(&'a [u8], &'a [u8]), DecodeError>)
    ensures
        match spec_decode_string(buf@) {
            Ok((payload, consumed)) => r matches Ok((p, rest)) && p@ == payload && rest@
                == buf@.skip(consumed as int),
            Err(e) => r == Err::<(&[u8], &[u8]), DecodeError>(e),
        },
{
    let h = match decode_header(buf) {
        Ok(h) => h,
        Err(e) => {
            return Err(e);
        },
    };
    if h.list {
        return Err(DecodeError::UnexpectedList);
    }
    proof {
        lemma_header_fits(buf@);
    }
    let end = h.header_length + h.payload_length;
    let payload = vstd::slice::slice_subrange(buf, h.header_length, end);
    let rest = slice_from(buf, end);
    Ok((payload, rest))
}

/// Reads the string of exactly `N` bytes at the front of `buf`. Returns its
/// bytes and the bytes that follow the string.
pub fn decode_fixed<'a, const N: usize>(buf: &'a [u8]) -> (r: Result<
    ([u8; N], &'a [u8]),
    DecodeError,
>)
    ensures
        match spec_decode_fixed(buf@, N as nat) {
            Ok((payload, consumed)) => r matches Ok((p, rest)) && p@ == payload && rest@
                == buf@.skip(consumed as int),
            Err(e) => r == Err::<([u8; N], &[u8]), DecodeError>(e),
        },
{
    let (payload, rest) = match decode_string(buf) {
        Ok(found) => found,
        Err(e) => {
            return Err(e);
        },
    };
    if payload.len() != N {
        return Err(DecodeError::UnexpectedLength);
    }
    let bytes: [u8; N] = array_from_prefix(payload);
    proof {
        assert(payload@.take(N as int) =~= payload@);
    }
    Ok((bytes, rest))
}

/// Reads the number of at most 64 bits at the front of `buf`. Returns it
/// and the bytes that follow it.
pub fn decode_u64<'a>(buf: &'a [u8]) -> (r: Result<(u64, &'a [u8]), DecodeError>)
    ensures
        match spec_decode_u64(buf@) {
            Ok((value, consumed)) => r matches Ok((x, rest)) && x == value && rest@
                == buf@.skip(consumed as int),
            Err(e) => r == Err::<(u64, &[u8]), DecodeError>(e),
        },
{
    let (payload, rest) = match decode_string(buf) {
        Ok(found) => found,
        Err(e) => {
            return Err(e);
        },
    };
    if payload.len() > 8 {
        return Err(DecodeError::Overflow);
    }
    if payload.len() > 0 && payload[0] == 0 {
        return Err(DecodeError::LeadingZero);
    }
    Ok((be_to_u64(payload), rest))
}

/// Reads the number of at most 256 bits at the front of `buf`. Returns it
/// and the bytes that follow it.
pub fn decode_uint256<'a>(buf: &'a [u8]) -> (r: Result<(UInt256, &'a [u8]), DecodeError>)
    ensures
        match spec_decode_uint256(buf@) {
            Ok((value, consumed)) => r matches Ok((x, rest)) && x@ == value && rest@
                == buf@.skip(consumed as int),
            Err(e) => r == Err::<(UInt256, &[u8]), DecodeError>(e),
        },
{
    let (payload, rest) = match decode_string(buf) {
        Ok(found) => found,
        Err(e) => {
            return Err(e);
        },
    };
    if payload.len() > 0 && payload[0] == 0 {
        return Err(DecodeError::LeadingZero);
    }
    if payload.len() > 32 {
        return Err(DecodeError::Overflow);
    }
    let mut bytes = [0u8; 32];
    let pad = 32 - payload.len();
    let mut i: usize = 0;
    while i < payload.len()
        invariant
            i <= payload@.len() <= 32,
            pad == 32 - payload@.len(),
            forall|j: int| 0 <= j < pad ==> bytes@[j] == 0,
            forall|j: int| 0 <= j < i ==> bytes@[pad + j] == payload@[j],
        decreases payload@.len() - i,
    {
        bytes[pad + i] = payload[i];
        i = i + 1;
    }
    proof {
        let zeros = bytes@.take(pad as int);
        assert(bytes@ =~= zeros + payload@);
        lemma_be_value_leading_zeros(zeros, payload@);
    }
    Ok((UInt256 { bytes }, rest))
}

/// Reads the header of the list at the front of `buf`. Returns the length
/// of the list's payload and the bytes that follow the header.
pub fn decode_list_header<'a>(buf: &'a [u8]) -> (r: Result<(usize, &'a [u8]), DecodeError>)
    ensures
        match spec_decode_list_header(buf@) {
            Ok((payload_length, header_length)) => r matches Ok((n, body)) && n
                == payload_length && body@ == buf@.skip(header_length as int) && n
                <= body@.len(),
            Err(e) => r == Err::<(usize, &[u8]), DecodeError>(e),
        },
{
    let h = match decode_header(buf) {
        Ok(h) => h,
        Err(e) => {
            return Err(e);
        },
    };
    if !h.list {
        return Err(DecodeError::UnexpectedString);
    }
    proof {
        lemma_header_fits(buf@);
    }
    Ok((h.payload_length, slice_from(buf, h.header_length)))
}

/// The header that the encoder writes in front of a payload is the header
/// that the decoder reads there.
pub proof fn lemma_decode_header_of_encoding(list: bool, len: nat, tail: Seq<u8>)
    requires
        len < length_limit(),
        tail.len() >= len,
        !list && len == 1 ==> tail[0] >= 0x80,
    ensures
        spec_decode_header(spec_header(list, len) + tail) == Ok::<HeaderView, DecodeError>(
            HeaderView {
                list,
                payload_length: len,
                header_length: spec_header(list, len).len(),
            },
        ),
        1 <= spec_header(list, len).len() <= 9,
{
    let header = spec_header(list, len);
    let s = header + tail;
    if len < 56 {
        assert(s[0] == header[0]);
        if len >= 1 {
            assert(s[1] == tail[0]);
        }
    } else {
        let len_bytes = min_be_bytes(len);
        lemma_pow256_values();
        lemma_min_be_bytes_len(len, 8);
        lemma_min_be_bytes_canonical(len);
        lemma_min_be_bytes_value(len);
        assert(s[0] == header[0]);
        assert(s.subrange(1, (1 + len_bytes.len()) as int) =~= len_bytes);
    }
}

/// A byte string is read back from its encoding, whatever follows.
pub proof fn lemma_decode_string_of_encoding(b: Seq<u8>, rest: Seq<u8>)
    requires
        b.len() < length_limit(),
    ensures
        spec_decode_string(spec_encode_bytes(b) + rest) == Ok::<(Seq<u8>, nat), DecodeError>(
            (b, spec_encode_bytes(b).len()),
        ),
        (spec_encode_bytes(b) + rest).skip(spec_encode_bytes(b).len() as int) == rest,
{
    let encoding = spec_encode_bytes(b);
    let s = encoding + rest;
    assert(s.skip(encoding.len() as int) =~= rest);
    if b.len() == 1 && b[0] < 0x80 {
        assert(s[0] == b[0]);
        assert(s.subrange(0, 1) =~= b);
    } else {
        let header = spec_header(false, b.len());
        assert(s =~= header + (b + rest));
        lemma_decode_header_of_encoding(false, b.len(), b + rest);
        assert(s.subrange(header.len() as int, (header.len() + b.len()) as int) =~= b);
    }
}

/// A byte string of `n` bytes is read back from its encoding as a string of
/// exactly `n` bytes.
pub proof fn lemma_decode_fixed_of_encoding(b: Seq<u8>, rest: Seq<u8>)
    requires
        b.len() < length_limit(),
    ensures
        spec_decode_fixed(spec_encode_bytes(b) + rest, b.len()) == Ok::<
            (Seq<u8>, nat),
            DecodeError,
        >((b, spec_encode_bytes(b).len())),
        (spec_encode_bytes(b) + rest).skip(spec_encode_bytes(b).len() as int) == rest,
{
    lemma_decode_string_of_encoding(b, rest);
}

/// A number of 64 bits is read back from its encoding, whatever follows.
pub proof fn lemma_decode_u64_of_encoding(x: u64, rest: Seq<u8>)
    ensures
        spec_decode_u64(spec_encode_uint(x as nat) + rest) == Ok::<(u64, nat), DecodeError>(
            (x, spec_encode_uint(x as nat).len()),
        ),
        (spec_encode_uint(x as nat) + rest).skip(spec_encode_uint(x as nat).len() as int)
            == rest,
        1 <= spec_encode_uint(x as nat).len() <= 9,
{
    let bytes = min_be_bytes(x as nat);
    lemma_pow256_values();
    lemma_min_be_bytes_len(x as nat, 8);
    lemma_min_be_bytes_canonical(x as nat);
    lemma_min_be_bytes_value(x as nat);
    lemma_decode_string_of_encoding(bytes, rest);
}

/// A number of 256 bits is read back from its encoding, whatever follows.
pub proof fn lemma_decode_uint256_of_encoding(n: nat, rest: Seq<u8>)
    requires
        n < pow256(32),
    ensures
        spec_decode_uint256(spec_encode_uint(n) + rest) == Ok::<(nat, nat), DecodeError>(
            (n, spec_encode_uint(n).len()),
        ),
        (spec_encode_uint(n) + rest).skip(spec_encode_uint(n).len() as int) == rest,
        1 <= spec_encode_uint(n).len() <= 33,
{
    let bytes = min_be_bytes(n);
    lemma_min_be_bytes_len(n, 32);
    lemma_min_be_bytes_canonical(n);
    lemma_min_be_bytes_value(n);
    lemma_decode_string_of_encoding(bytes, rest);
}

/// The header of a list is read back from the list's encoding, whatever
/// follows the list.
pub proof fn lemma_decode_list_header_of_encoding(payload: Seq<u8>, rest: Seq<u8>)
    requires
        payload.len() < length_limit(),
    ensures
        spec_decode_list_header(spec_encode_list(payload) + rest) == Ok::<
            (nat, nat),
            DecodeError,
        >((payload.len(), spec_header(true, payload.len()).len())),
        (spec_encode_list(payload) + rest).skip(spec_header(true, payload.len()).len() as int)
            == payload + rest,
        (spec_encode_list(payload) + rest).skip(spec_encode_list(payload).len() as int)
            == rest,
{
    let header = spec_header(true, payload.len());
    let s = spec_encode_list(payload) + rest;
    assert(s =~= header + (payload + rest));
    lemma_decode_header_of_encoding(true, payload.len(), payload + rest);
    assert(s.skip(header.len() as int) =~= payload + rest);
    assert(s.skip(spec_encode_list(payload).len() as int) =~= rest);
}

/// A header that the decoder accepts is the one that the encoder writes in
/// front of a payload of that length. A single byte that stands for itself
/// has no header.
pub proof fn lemma_decoded_header_is_canonical(s: Seq<u8>)
    ensures
        spec_decode_header(s) matches Ok(h) ==> {
            &&& h.payload_length < length_limit()
            &&& h.header_length == 0 ==> !h.list && h.payload_length == 1 && s[0] < 0x80
            &&& h.header_length > 0 ==> s.take(h.header_length as int) == spec_header(
                h.list,
                h.payload_length,
            )
            &&& h.header_length > 0 && !h.list && h.payload_length == 1 ==> s[1] >= 0x80
        },
{
    if let Ok(h) = spec_decode_header(s) {
        lemma_header_fits(s);
        lemma_pow256_values();
        if s[0] < 0x80 {
        } else if s[0] <= 0xb7 {
            assert(s.take(1) =~= spec_header(false, h.payload_length));
        } else if s[0] <= 0xbf || s[0] >= 0xf8 {
            let len_of_len = (h.header_length - 1) as nat;
            let len_bytes = s.subrange(1, (1 + len_of_len) as int);
            lemma_be_value_bound(len_bytes);
            lemma_pow256_monotonic(len_of_len, 8);
            lemma_min_be_bytes_of_value(len_bytes);
            assert(s.take(h.header_length as int) =~= seq![s[0]] + len_bytes);
        } else {
            assert(s.take(1) =~= spec_header(true, h.payload_length));
        }
    }
}

/// A string that the decoder accepts is written in the one form that the
/// encoder produces: the bytes that it takes are the encoding of its
/// payload.
pub proof fn lemma_decoded_string_is_canonical(s: Seq<u8>)
    ensures
        spec_decode_string(s) matches Ok((payload, consumed)) ==> s.take(consumed as int)
            == spec_encode_bytes(payload) && 1 <= consumed <= s.len(),
        forall|n: nat|
            (#[trigger] spec_decode_fixed(s, n)) matches Ok((payload, consumed)) ==> s.take(
                consumed as int,
            ) == spec_encode_bytes(payload) && payload.len() == n && 1 <= consumed <= s.len(),
{
    lemma_header_fits(s);
    lemma_decoded_header_is_canonical(s);
    if let Ok((payload, consumed)) = spec_decode_string(s) {
        let h = spec_decode_header(s)->Ok_0;
        if h.header_length == 0 {
            assert(payload =~= seq![s[0]]);
            assert(s.take(1) =~= payload);
        } else {
            if h.payload_length == 1 {
                assert(payload[0] == s[1]);
            }
            assert(s.take(consumed as int) =~= s.take(h.header_length as int) + payload);
        }
    }
}

/// A number that the decoder accepts is written in the one form that the
/// encoder produces, and fits its type.
pub proof fn lemma_decoded_number_is_canonical(s: Seq<u8>)
    ensures
        spec_decode_u64(s) matches Ok((value, consumed)) ==> s.take(consumed as int)
            == spec_encode_uint(value as nat) && 1 <= consumed <= s.len(),
        spec_decode_uint256(s) matches Ok((value, consumed)) ==> s.take(consumed as int)
            == spec_encode_uint(value) && value < pow256(32) && 1 <= consumed <= s.len(),
{
    lemma_decoded_string_is_canonical(s);
    if let Ok((payload, consumed)) = spec_decode_string(s) {
        if !has_leading_zero(payload) {
            lemma_min_be_bytes_of_value(payload);
            lemma_be_value_bound(payload);
            lemma_pow256_values();
            if payload.len() <= 8 {
                lemma_pow256_monotonic(payload.len(), 8);
            }
            if payload.len() <= 32 {
                lemma_pow256_monotonic(payload.len(), 32);
            }
        }
    }
}

/// A list header that the decoder accepts is the one that the encoder
/// writes in front of a payload of that length.
pub proof fn lemma_decoded_list_header_is_canonical(s: Seq<u8>)
    ensures
        spec_decode_list_header(s) matches Ok((payload_length, header_length)) ==> s.take(
            header_length as int,
        ) == spec_header(true, payload_length) && 1 <= header_length && header_length
            + payload_length <= s.len(),
{
    lemma_header_fits(s);
    lemma_decoded_header_is_canonical(s);
}

} // verus!
