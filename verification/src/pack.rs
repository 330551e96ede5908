//! Primitive reads and writes over a byte buffer and a cursor.
//!
//! Every read takes the buffer and the position of the next unread byte, and
//! moves that position over what it consumed. Multi-byte integers are
//! big-endian.

use vstd::prelude::*;
use vstd::arithmetic::power2::{lemma2_to64, pow2};
use vstd::slice::{slice_subrange, slice_to_vec};
use vstd::utf8::{decode_utf8, encode_utf8, valid_utf8};
use crate::error::CodecError;

verus! {

/// The 16-bit integer whose big-endian bytes stand at `pos` and `pos + 1`.
pub open spec fn be_u16(buf: Seq<u8>, pos: int) -> int {
    buf[pos] * 256 + buf[pos + 1]
}

/// The 32-bit integer whose big-endian bytes stand at `pos .. pos + 4`.
pub open spec fn be_u32(buf: Seq<u8>, pos: int) -> int {
    be_u16(buf, pos) * 65536 + be_u16(buf, pos + 2)
}

/// The error of `String::from_utf8`, carried from the call to the place that
/// maps it to [`CodecError::InvalidUtf8`].
#[verifier::external_type_specification]
#[verifier::external_body]
pub struct ExFromUtf8Error(std::string::FromUtf8Error);

/// `String::from_utf8` of the standard library: it succeeds exactly on
/// well-formed UTF-8, and the string it then returns is made of the very
/// bytes it was given.
pub assume_specification[ String::from_utf8 ](vec: Vec<u8>) -> (r: Result<
    String,
    std::string::FromUtf8Error,
>)
    ensures
        r is Ok <==> valid_utf8(vec@),
        r matches Ok(s) ==> encode_utf8(s@) == vec@,
;

/// Whether `size` bytes can be read at `pos`.
pub open spec fn in_bounds(buf: Seq<u8>, pos: int, size: int) -> bool {
    0 <= pos && 0 <= size && pos + size <= buf.len()
}

/// What reading one byte at `pos` gives, and where it leaves the cursor.
pub open spec fn spec_unpack_u8(buf: Seq<u8>, pos: int) -> (Result<u8, CodecError>, int) {
    if in_bounds(buf, pos, 1) {
        (Ok(buf[pos]), pos + 1)
    } else {
        (Err(CodecError::OutOfBounds), pos + 1)
    }
}

/// What reading a big-endian 16-bit integer at `pos` gives, and where it
/// leaves the cursor.
pub open spec fn spec_unpack_u16(buf: Seq<u8>, pos: int) -> (Result<u16, CodecError>, int) {
    if in_bounds(buf, pos, 2) {
        (Ok(be_u16(buf, pos) as u16), pos + 2)
    } else {
        (Err(CodecError::OutOfBounds), pos + 2)
    }
}

/// Reads the byte under the cursor.
///
/// The cursor moves one byte on, whether or not a byte was there.
pub fn unpack_u8(buf: &Vec<u8>, pbuf: &mut usize) -> (r: Result<u8, CodecError>)
    requires
        *old(pbuf) + 1 <= usize::MAX,
    ensures
        *final(pbuf) == *old(pbuf) + 1,
        *old(pbuf) < buf.len() ==> r == Ok::<u8, CodecError>(buf[*old(pbuf) as int]),
        *old(pbuf) >= buf.len() ==> r == Err::<u8, CodecError>(CodecError::OutOfBounds),
        (r, *final(pbuf) as int) == spec_unpack_u8(buf@, *old(pbuf) as int),
        r is Ok ==> *final(pbuf) <= buf.len(),
{
    let pos: usize = *pbuf;
    *pbuf = pos + 1;
    if pos < buf.len() {
        Ok(buf[pos])
    } else {
        Err(CodecError::OutOfBounds)
    }
}

/// Reads a big-endian 16-bit integer, one byte at a time.
///
/// The cursor moves two bytes on, whether or not both bytes were there.
pub fn unpack_u16(buf: &Vec<u8>, pbuf: &mut usize) -> (r: Result<u16, CodecError>)
    requires
        *old(pbuf) + 2 <= usize::MAX,
    ensures
        *final(pbuf) == *old(pbuf) + 2,
        *old(pbuf) + 2 <= buf.len() ==> r == Ok::<u16, CodecError>(
            be_u16(buf@, *old(pbuf) as int) as u16,
        ),
        *old(pbuf) + 2 > buf.len() ==> r == Err::<u16, CodecError>(CodecError::OutOfBounds),
        (r, *final(pbuf) as int) == spec_unpack_u16(buf@, *old(pbuf) as int),
        r is Ok ==> *final(pbuf) <= buf.len(),
{
    let hi = unpack_u8(buf, pbuf);
    let lo = unpack_u8(buf, pbuf);
    match (hi, lo) {
        (Ok(h), Ok(l)) => {
            let h16: u16 = h as u16;
            let l16: u16 = l as u16;
            assert(h16 << 8 | l16 == h16 * 256 + l16) by (bit_vector)
                requires
                    h16 < 256,
                    l16 < 256,
            ;
            Ok(h16 << 8 | l16)
        },
        _ => Err(CodecError::OutOfBounds),
    }
}

/// Reads a big-endian 32-bit integer as two 16-bit reads.
///
/// The cursor moves two bytes on if the first half is missing, four bytes on
/// otherwise.
pub fn unpack_u32(buf: &Vec<u8>, pbuf: &mut usize) -> (r: Result<u32, CodecError>)
    requires
        *old(pbuf) + 4 <= usize::MAX,
    ensures
        *final(pbuf) == if *old(pbuf) + 2 <= buf.len() {
            *old(pbuf) + 4
        } else {
            *old(pbuf) + 2
        },
        *old(pbuf) + 4 <= buf.len() ==> r == Ok::<u32, CodecError>(
            be_u32(buf@, *old(pbuf) as int) as u32,
        ),
        *old(pbuf) + 4 > buf.len() ==> r == Err::<u32, CodecError>(CodecError::OutOfBounds),
        r is Ok ==> *final(pbuf) <= buf.len(),
{
    let hi: u32 = match unpack_u16(buf, pbuf) {
        Ok(v) => v as u32,
        Err(e) => {
            return Err(e);
        },
    };
    let lo: u32 = match unpack_u16(buf, pbuf) {
        Ok(v) => v as u32,
        Err(e) => {
            return Err(e);
        },
    };
    assert(hi << 16 | lo == hi * 65536 + lo) by (bit_vector)
        requires
            hi < 65536,
            lo < 65536,
    ;
    Ok(hi << 16 | lo)
}

/// Reads the next `size` bytes as they are.
///
/// The cursor moves over them; it stays where it was if fewer than `size`
/// bytes are left.
pub fn unpack_vec(buf: &Vec<u8>, pbuf: &mut usize, size: usize) -> (r: Result<Vec<u8>, CodecError>)
    ensures
        in_bounds(buf@, *old(pbuf) as int, size as int) ==> {
            &&& r matches Ok(v)
            &&& v@ == buf@.subrange(*old(pbuf) as int, *old(pbuf) + size)
            &&& *final(pbuf) == *old(pbuf) + size
        },
        !in_bounds(buf@, *old(pbuf) as int, size as int) ==> {
            &&& r == Err::<Vec<u8>, CodecError>(CodecError::OutOfBounds)
            &&& *final(pbuf) == *old(pbuf)
        },
{
    let pos: usize = *pbuf;
    if size > buf.len() || pos > buf.len() - size {
        return Err(CodecError::OutOfBounds);
    }
    let bytes = slice_to_vec(slice_subrange(buf.as_slice(), pos, pos + size));
    *pbuf = pos + size;
    Ok(bytes)
}

/// Reads the next `size` bytes as a UTF-8 string.
///
/// The cursor moves over them if they are there and well-formed, and stays
/// where it was otherwise.
pub fn unpack_bytes(buf: &Vec<u8>, pbuf: &mut usize, size: usize) -> (r: Result<String, CodecError>)
    ensures
        !in_bounds(buf@, *old(pbuf) as int, size as int) ==> {
            &&& r == Err::<String, CodecError>(CodecError::OutOfBounds)
            &&& *final(pbuf) == *old(pbuf)
        },
        in_bounds(buf@, *old(pbuf) as int, size as int) && !valid_utf8(
            buf@.subrange(*old(pbuf) as int, *old(pbuf) + size),
        ) ==> {
            &&& r == Err::<String, CodecError>(CodecError::InvalidUtf8)
            &&& *final(pbuf) == *old(pbuf)
        },
        in_bounds(buf@, *old(pbuf) as int, size as int) && valid_utf8(
            buf@.subrange(*old(pbuf) as int, *old(pbuf) + size),
        ) ==> {
            &&& r matches Ok(s)
            &&& s@ == decode_utf8(buf@.subrange(*old(pbuf) as int, *old(pbuf) + size))
            &&& *final(pbuf) == *old(pbuf) + size
        },
{
    let pos: usize = *pbuf;
    if size > buf.len() || pos > buf.len() - size {
        return Err(CodecError::OutOfBounds);
    }
    let bytes = slice_to_vec(slice_subrange(buf.as_slice(), pos, pos + size));
    match String::from_utf8(bytes) {
        Ok(s) => {
            proof {
                vstd::utf8::encode_utf8_decode_utf8(s@);
            }
            *pbuf = pos + size;
            Ok(s)
        },
        Err(_) => Err(CodecError::InvalidUtf8),
    }
}

/// What reading a length-prefixed string at `pos` gives, and where it leaves
/// the cursor: a big-endian 16-bit length, then that many bytes of UTF-8.
pub open spec fn spec_unpack_string(buf: Seq<u8>, pos: int) -> (Result<Seq<char>, CodecError>, int) {
    if !in_bounds(buf, pos, 2) {
        (Err(CodecError::OutOfBounds), pos + 2)
    } else if !in_bounds(buf, pos + 2, be_u16(buf, pos)) {
        (Err(CodecError::OutOfBounds), pos + 2)
    } else if !valid_utf8(buf.subrange(pos + 2, pos + 2 + be_u16(buf, pos))) {
        (Err(CodecError::InvalidUtf8), pos + 2)
    } else {
        (Ok(decode_utf8(buf.subrange(pos + 2, pos + 2 + be_u16(buf, pos)))), pos + 2 + be_u16(buf, pos))
    }
}

/// The characters of a string read, or the error of a failed read.
pub open spec fn string_result_view(r: Result<String, CodecError>) -> Result<Seq<char>, CodecError> {
    match r {
        Ok(s) => Ok(s@),
        Err(e) => Err(e),
    }
}

/// Reads a string with its 16-bit length prefix.
///
/// The cursor moves over the prefix in any case, and over the string if it is
/// there and well-formed.
pub fn unpack_string(buf: &Vec<u8>, pbuf: &mut usize) -> (r: Result<String, CodecError>)
    requires
        *old(pbuf) + 2 <= usize::MAX,
    ensures
        string_result_view(r) == spec_unpack_string(buf@, *old(pbuf) as int).0,
        *final(pbuf) == spec_unpack_string(buf@, *old(pbuf) as int).1,
        r is Ok ==> *final(pbuf) <= buf.len(),
{
    let str_len: u16 = match unpack_u16(buf, pbuf) {
        Ok(n) => n,
        Err(e) => {
            return Err(e);
        },
    };
    unpack_bytes(buf, pbuf, str_len as usize)
}

/// Whether bit `i` of `num` is set, bit 0 being the least significant.
pub open spec fn bit_is_set(num: u8, i: nat) -> bool {
    (num as nat / pow2(i)) % 2 == 1
}

/// The eight bits of `num`, least significant first.
pub open spec fn byte_bits(num: u8) -> Seq<bool> {
    Seq::new(8, |i: int| bit_is_set(num, i as nat))
}

/// The number that a bit stands for at weight one.
pub open spec fn bit_value(b: bool) -> int {
    if b {
        1
    } else {
        0
    }
}

/// The byte whose bits are `bits`, least significant first.
pub open spec fn byte_of_bits(bits: Seq<bool>) -> int {
    bit_value(bits[0]) + 2 * bit_value(bits[1]) + 4 * bit_value(bits[2]) + 8 * bit_value(bits[3])
        + 16 * bit_value(bits[4]) + 32 * bit_value(bits[5]) + 64 * bit_value(bits[6]) + 128
        * bit_value(bits[7])
}

/// Putting the bits of a byte together again gives the byte.
pub proof fn lemma_byte_bits_roundtrip(num: u8)
    ensures
        byte_of_bits(byte_bits(num)) == num,
{
    lemma2_to64();
    assert(num == (num / 1u8) % 2 + 2 * ((num / 2u8) % 2) + 4 * ((num / 4u8) % 2) + 8 * ((num
        / 8u8) % 2) + 16 * ((num / 16u8) % 2) + 32 * ((num / 32u8) % 2) + 64 * ((num / 64u8) % 2)
        + 128 * ((num / 128u8) % 2)) by (bit_vector);
    let bits = byte_bits(num);
    assert(bit_value(bits[0]) == (num / 1u8) % 2);
    assert(bit_value(bits[1]) == (num / 2u8) % 2);
    assert(bit_value(bits[2]) == (num / 4u8) % 2);
    assert(bit_value(bits[3]) == (num / 8u8) % 2);
    assert(bit_value(bits[4]) == (num / 16u8) % 2);
    assert(bit_value(bits[5]) == (num / 32u8) % 2);
    assert(bit_value(bits[6]) == (num / 64u8) % 2);
    assert(bit_value(bits[7]) == (num / 128u8) % 2);
}

/// Splits a byte into its eight bits, least significant first.
pub fn unpack_byte(num: u8) -> (r: [bool; 8])
    ensures
        r@ == byte_bits(num),
        byte_of_bits(r@) == num,
{
    let mut arr = [false;8];
    let mut i: u8 = 0;
    while i < 8
        invariant
            i <= 8,
            forall|j: int| 0 <= j < i ==> arr@[j] == bit_is_set(num, j as nat),
        decreases 8 - i,
    {
        let a: u8 = (num & (1u8 << i)) >> i;
        proof {
            lemma2_to64();
            assert((a == 1) == ((num / (1u8 << i)) % 2 == 1)) by (bit_vector)
                requires
                    i < 8,
                    a == (num & (1u8 << i)) >> i,
            ;
            assert((1u8 << i) == pow2(i as nat)) by {
                assert(i < 8 ==> (1u8 << i) == if i == 0 {
                    1u8
                } else if i == 1 {
                    2u8
                } else if i == 2 {
                    4u8
                } else if i == 3 {
                    8u8
                } else if i == 4 {
                    16u8
                } else if i == 5 {
                    32u8
                } else if i == 6 {
                    64u8
                } else {
                    128u8
                }) by (bit_vector);
            }
        }
        arr[i as usize] = a == 1;
        i = i + 1;
    }
    proof {
        assert(arr@ =~= byte_bits(num));
        lemma_byte_bits_roundtrip(num);
    }
    arr
}

/// The two bytes of `val`, most significant first.
pub open spec fn u16_be_bytes(val: u16) -> Seq<u8> {
    seq![(val / 256) as u8, (val % 256) as u8]
}

/// The four bytes of `val`, most significant first.
pub open spec fn u32_be_bytes(val: u32) -> Seq<u8> {
    u16_be_bytes((val / 65536) as u16) + u16_be_bytes((val % 65536) as u16)
}

/// Appends one byte to the output buffer.
pub fn pack_u8(buf: &mut Vec<u8>, val: u8)
    ensures
        final(buf)@ == old(buf)@.push(val),
{
    buf.push(val);
}

/// Appends a 16-bit integer to the output buffer, most significant byte
/// first. Reading at the place where it was written gives `val` back.
pub fn pack_u16(buf: &mut Vec<u8>, val: u16)
    ensures
        final(buf)@ == old(buf)@ + u16_be_bytes(val),
        be_u16(final(buf)@, old(buf)@.len() as int) == val,
{
    let hi: u16 = val >> 8;
    let lo: u16 = val & 0xff;
    assert(hi == val / 256 && lo == val % 256 && hi < 256 && lo < 256) by (bit_vector)
        requires
            hi == val >> 8,
            lo == val & 0xff,
    ;
    pack_u8(buf, hi as u8);
    pack_u8(buf, lo as u8);
    assert(buf@ =~= old(buf)@ + u16_be_bytes(val));
}

/// Appends a 32-bit integer to the output buffer, most significant byte
/// first. Reading at the place where it was written gives `val` back.
pub fn pack_u32(buf: &mut Vec<u8>, val: u32)
    ensures
        final(buf)@ == old(buf)@ + u32_be_bytes(val),
        be_u32(final(buf)@, old(buf)@.len() as int) == val,
{
    let hi: u32 = val >> 16;
    let lo: u32 = val & 0xffff;
    assert(hi == val / 65536 && lo == val % 65536 && hi < 65536 && lo < 65536) by (bit_vector)
        requires
            hi == val >> 16,
            lo == val & 0xffff,
    ;
    pack_u16(buf, hi as u16);
    pack_u16(buf, lo as u16);
    assert(buf@ =~= old(buf)@ + u32_be_bytes(val));
}

/// Writing a length-prefixed byte string is declared and not yet provided:
/// the call reports so and writes nothing.
pub fn pack_bytes() -> (r: Result<(), CodecError>)
    ensures
        r == Err::<(), CodecError>(CodecError::NotImplemented),
{
    Err(CodecError::NotImplemented)
}

} // verus!
