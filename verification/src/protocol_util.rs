//! Packet-type bytes, quality-of-service levels, the flags of the fixed
//! header, and the variable-length "remaining length" integer.

use vstd::prelude::*;
use crate::error::CodecError;
use crate::pack::{bit_value, unpack_u8};

verus! {

pub const CONNECT_BYTE: u8 = 0x10;

pub const CONNACK_BYTE: u8 = 0x20;

pub const PUBLISH_BYTE: u8 = 0x30;

pub const PUBACK_BYTE: u8 = 0x40;

pub const PUBREC_BYTE: u8 = 0x50;

pub const PUBREL_BYTE: u8 = 0x60;

pub const PUBCOMP_BYTE: u8 = 0x70;

pub const SUBSCRIBE_BYTE: u8 = 0x80;

pub const SUBACK_BYTE: u8 = 0x90;

pub const UNSUBSCRIBE_BYTE: u8 = 0xA0;

pub const UNSUBACK_BYTE: u8 = 0xB0;

pub const PINGREQ: u8 = 0xC0;

pub const PINGRESP_BYTE: u8 = 0xD0;

pub const DISCONNECT: u8 = 0xE0;

pub const AUTH: u8 = 0xF0;

/// Length of a fixed header whose remaining length fits in one byte.
pub const MQTT_HEADER_LEN: u8 = 2;

/// Length of a packet identifier.
pub const MQTT_ACK_LEN: u8 = 2;

/// The most bytes that an encoded remaining length may take.
pub const MAX_LEN_BYTES_REMAINING_LENGTH: u8 = 4;

/// The largest remaining length that four bytes can encode.
pub const MAX_REMAINING_LENGTH: u32 = 268_435_455;

/// Delivery guarantee of a message.
#[derive(Debug, Clone, Copy, PartialEq, Eq, Structural)]
pub enum QosLevel {
    AtMostOnce,
    AtLeastOnce,
    ExactlyOnce,
}

impl QosLevel {
    /// The number that stands for this level on the wire.
    pub open spec fn level(self) -> int {
        match self {
            QosLevel::AtMostOnce => 0,
            QosLevel::AtLeastOnce => 1,
            QosLevel::ExactlyOnce => 2,
        }
    }

    /// The level that `qos` stands for; 3 is reserved, and nothing above it
    /// fits the two-bit field, so both are refused.
    pub fn new(qos: u8) -> (r: Result<QosLevel, CodecError>)
        ensures
            qos <= 2 ==> r is Ok && r->Ok_0.level() == qos,
            qos > 2 ==> r == Err::<QosLevel, CodecError>(CodecError::InvalidQos(qos)),
    {
        match qos {
            0 => Ok(QosLevel::AtMostOnce),
            1 => Ok(QosLevel::AtLeastOnce),
            2 => Ok(QosLevel::ExactlyOnce),
            _ => Err(CodecError::InvalidQos(qos)),
        }
    }
}

/// The flags in the low nibble of the first byte of a packet.
#[derive(Debug, Clone, Copy, PartialEq, Eq, Structural)]
pub struct HeaderFlags {
    pub retain: bool,
    pub qos: QosLevel,
    pub dup: bool,
}

/// The quality-of-service number in a flag nibble: bit 1 is its low bit and
/// bit 2 its high bit.
pub open spec fn qos_bits(bits: Seq<bool>) -> int {
    bit_value(bits[1]) + 2 * bit_value(bits[2])
}

impl HeaderFlags {
    /// What a flag nibble, given bit by bit, decodes to: bit 0 is `retain`,
    /// bits 1 and 2 the quality of service, bit 3 `dup`.
    pub open spec fn spec_unpack(bits: Seq<bool>) -> Result<HeaderFlags, CodecError> {
        if qos_bits(bits) == 0 {
            Ok(HeaderFlags { retain: bits[0], qos: QosLevel::AtMostOnce, dup: bits[3] })
        } else if qos_bits(bits) == 1 {
            Ok(HeaderFlags { retain: bits[0], qos: QosLevel::AtLeastOnce, dup: bits[3] })
        } else if qos_bits(bits) == 2 {
            Ok(HeaderFlags { retain: bits[0], qos: QosLevel::ExactlyOnce, dup: bits[3] })
        } else {
            Err(CodecError::InvalidQos(3))
        }
    }

    /// Decodes the flags from the bits of the first byte of a packet.
    ///
    /// Both quality-of-service bits set is a protocol violation, whatever the
    /// other bits are.
    pub fn unpack(header_flag: [bool; 8]) -> (r: Result<HeaderFlags, CodecError>)
        ensures
            r == Self::spec_unpack(header_flag@),
            header_flag@[1] && header_flag@[2] <==> r == Err::<HeaderFlags, CodecError>(
                CodecError::InvalidQos(3),
            ),
    {
        let num: u8 = if header_flag[2] {
            2
        } else {
            0
        };
        let qos: u8 = if header_flag[1] {
            num + 1
        } else {
            num
        };
        match QosLevel::new(qos) {
            Ok(level) => Ok(HeaderFlags { retain: header_flag[0], qos: level, dup: header_flag[3] }),
            Err(e) => Err(e),
        }
    }

    /// The flags with the given values.
    pub fn pack(retain: bool, qos: QosLevel, dup: bool) -> (r: HeaderFlags)
        ensures
            r == (HeaderFlags { retain, qos, dup }),
    {
        HeaderFlags { retain, qos, dup }
    }
}

/// Checks that the whole buffer has been read: the cursor must stand exactly
/// at its end. The cursor is left as it is.
pub fn valid_all_data_parsed(buf: &Vec<u8>, pbuf: &mut usize) -> (r: Result<(), CodecError>)
    ensures
        *final(pbuf) == *old(pbuf),
        *old(pbuf) == buf.len() ==> r == Ok::<(), CodecError>(()),
        *old(pbuf) != buf.len() ==> r == Err::<(), CodecError>(CodecError::TrailingData),
{
    if *pbuf != buf.len() {
        return Err(CodecError::TrailingData);
    }
    Ok(())
}

/// 128 to the power `i`: the weight of the group of seven bits at place `i`.
pub open spec fn pow128(i: nat) -> nat
    decreases i,
{
    if i == 0 {
        1
    } else {
        128 * pow128((i - 1) as nat)
    }
}

/// The weights of the four groups that a remaining length may have, and the
/// first number that four groups cannot hold.
pub proof fn lemma_pow128_values()
    ensures
        pow128(0) == 1,
        pow128(1) == 128,
        pow128(2) == 16384,
        pow128(3) == 2097152,
        pow128(4) == MAX_REMAINING_LENGTH + 1,
{
    reveal_with_fuel(pow128, 5);
}

/// How many bytes from `pos` on carry a continuation bit, counted up to
/// `limit` and up to the end of the buffer.
pub open spec fn continuation_run(buf: Seq<u8>, pos: int, limit: nat) -> nat
    decreases limit,
{
    if limit == 0 || !(0 <= pos < buf.len()) || buf[pos] < 128 {
        0
    } else {
        1 + continuation_run(buf, pos + 1, (limit - 1) as nat)
    }
}

/// The number that the `count` bytes from `pos` on stand for: the low seven
/// bits of each, the first byte being the least significant group.
pub open spec fn groups_value(buf: Seq<u8>, pos: int, count: nat) -> nat
    decreases count,
{
    if count == 0 {
        0
    } else {
        groups_value(buf, pos, (count - 1) as nat) + (buf[pos + count - 1] % 128) as nat * pow128(
            (count - 1) as nat,
        )
    }
}

/// What decoding a remaining length at `pos` gives, and where it leaves the
/// cursor.
///
/// The field ends with the first byte whose high bit is clear. Four bytes
/// with the high bit set are one too many; a buffer that ends before the
/// field does is out of bounds. The cursor stands after the last byte that
/// was asked for.
pub open spec fn spec_decode_length(buf: Seq<u8>, pos: int) -> (Result<u32, CodecError>, int) {
    let run = continuation_run(buf, pos, 4);
    if run >= 4 {
        (Err(CodecError::MalformedLength), pos + 4)
    } else if pos + run >= buf.len() {
        (Err(CodecError::OutOfBounds), pos + run + 1)
    } else {
        (Ok(groups_value(buf, pos, run + 1) as u32), pos + run + 1)
    }
}

/// Decodes the remaining length that starts under the cursor, reading one
/// byte at a time and at most four.
pub fn decode_length(buf: &Vec<u8>, pbuf: &mut usize) -> (r: Result<u32, CodecError>)
    requires
        *old(pbuf) + 4 <= usize::MAX,
    ensures
        r == spec_decode_length(buf@, *old(pbuf) as int).0,
        *final(pbuf) == spec_decode_length(buf@, *old(pbuf) as int).1,
        r matches Ok(v) ==> v <= MAX_REMAINING_LENGTH && *final(pbuf) <= buf.len(),
{
    let ghost start: int = *pbuf as int;
    let mut multiplier: u32 = 1;
    let mut value: u32 = 0;
    let mut count: u8 = 0;
    proof {
        reveal_with_fuel(continuation_run, 5);
        reveal_with_fuel(groups_value, 5);
        reveal_with_fuel(pow128, 5);
    }
    while count < MAX_LEN_BYTES_REMAINING_LENGTH
        invariant
            start == *old(pbuf),
            start + 4 <= usize::MAX,
            count <= 4,
            *pbuf == start + count,
            multiplier == pow128(count as nat),
            value == groups_value(buf@, start, count as nat),
            value < multiplier,
            forall|j: int|
                0 <= j < count ==> start + j < buf.len() && #[trigger] buf@[start + j] >= 128,
        decreases 4 - count,
    {
        proof {
            reveal_with_fuel(continuation_run, 5);
            reveal_with_fuel(groups_value, 5);
            reveal_with_fuel(pow128, 5);
        }
        let c: u8 = match unpack_u8(buf, pbuf) {
            Ok(c) => c,
            Err(e) => {
                assert(continuation_run(buf@, start, 4) == count);
                return Err(e);
            },
        };
        let low: u8 = c & 127;
        assert(low == c % 128 && (c & 128 == 0) == (c < 128)) by (bit_vector)
            requires
                low == c & 127,
        ;
        proof {
            lemma_pow128_values();
            if count == 0 {
                assert(low as nat * pow128(0) == low * 1);
            } else if count == 1 {
                assert(low as nat * pow128(1) == low * 128);
            } else if count == 2 {
                assert(low as nat * pow128(2) == low * 16384);
            } else {
                assert(low as nat * pow128(3) == low * 2097152);
            }
        }
        value = value + low as u32 * multiplier;
        if c & 128 == 0 {
            assert(continuation_run(buf@, start, 4) == count);
            return Ok(value);
        }
        multiplier = multiplier * 128;
        count = count + 1;
    }
    assert(continuation_run(buf@, start, 4) == 4);
    Err(CodecError::MalformedLength)
}

/// The encoding of `v` as a remaining length: seven bits to a byte, the least
/// significant group first, the high bit set on every byte but the last.
pub open spec fn encode_length_spec(v: nat) -> Seq<u8>
    decreases v,
{
    if v < 128 {
        seq![v as u8]
    } else {
        seq![(v % 128 + 128) as u8] + encode_length_spec(v / 128)
    }
}

/// The fewest bytes that can encode `v`, for a `v` that four bytes can hold.
pub open spec fn encoded_len(v: nat) -> nat {
    if v < 128 {
        1
    } else if v < 16384 {
        2
    } else if v < 2097152 {
        3
    } else {
        4
    }
}

/// Writes the encoding of `length` into the buffer, behind its first byte,
/// and returns the number of bytes written, which is the fewest that can
/// hold it. The buffer keeps its length, its first byte and what stands
/// behind the bytes written; decoding at the second byte gives `length` back.
///
/// A length that four bytes cannot hold is refused, and so is a buffer with
/// no room for the first byte and the encoding; nothing is written then.
pub fn encode_length(buf: &mut Vec<u8>, length: u32) -> (r: Result<u8, CodecError>)
    ensures
        final(buf)@.len() == old(buf)@.len(),
        length > MAX_REMAINING_LENGTH ==> {
            &&& r == Err::<u8, CodecError>(CodecError::MalformedLength)
            &&& final(buf)@ == old(buf)@
        },
        length <= MAX_REMAINING_LENGTH && old(buf)@.len() <= encoded_len(length as nat) ==> {
            &&& r == Err::<u8, CodecError>(CodecError::OutOfBounds)
            &&& final(buf)@ == old(buf)@
        },
        length <= MAX_REMAINING_LENGTH && old(buf)@.len() > encoded_len(length as nat) ==> {
            &&& r == Ok::<u8, CodecError>(encoded_len(length as nat) as u8)
            &&& final(buf)@ == old(buf)@.subrange(0, 1) + encode_length_spec(length as nat) + old(
                buf,
            )@.subrange(1 + encoded_len(length as nat) as int, old(buf)@.len() as int)
            &&& spec_decode_length(final(buf)@, 1) == (
                Ok::<u32, CodecError>(length),
                1 + encoded_len(length as nat) as int,
            )
        },
{
    if length > MAX_REMAINING_LENGTH {
        return Err(CodecError::MalformedLength);
    }
    let needed: usize = if length < 128 {
        1
    } else if length < 16384 {
        2
    } else if length < 2097152 {
        3
    } else {
        4
    };
    if buf.len() <= needed {
        return Err(CodecError::OutOfBounds);
    }
    let mut bytes: u8 = 0;
    let mut len: u32 = length;
    loop
        invariant
            length <= MAX_REMAINING_LENGTH,
            len <= length,
            bytes + encoded_len(len as nat) == encoded_len(length as nat),
            buf@.len() == old(buf)@.len(),
            buf@.len() > encoded_len(length as nat),
            buf@[0] == old(buf)@[0],
            forall|j: int| bytes < j < buf@.len() ==> buf@[j] == old(buf)@[j],
            buf@.subrange(1, 1 + bytes) + encode_length_spec(len as nat) == encode_length_spec(
                length as nat,
            ),
        decreases len,
    {
        let ghost before = buf@;
        let ghost prev: nat = len as nat;
        let mut d: u8 = (len % 128) as u8;
        len = len / 128;
        if len > 0 {
            assert(d | 128 == d + 128) by (bit_vector)
                requires
                    d < 128,
            ;
            d = d | 128;
        }
        bytes = bytes + 1;
        buf.set(bytes as usize, d);
        proof {
            assert(encode_length_spec(prev) == if prev < 128 {
                seq![prev as u8]
            } else {
                seq![(prev % 128 + 128) as u8] + encode_length_spec(prev / 128)
            });
            assert(buf@.subrange(1, 1 + bytes) =~= before.subrange(1, bytes as int).push(d));
            if len > 0 {
                assert(buf@.subrange(1, 1 + bytes) + encode_length_spec(len as nat)
                    =~= before.subrange(1, bytes as int) + encode_length_spec(prev));
            } else {
                assert(buf@.subrange(1, 1 + bytes) =~= before.subrange(1, bytes as int)
                    + encode_length_spec(prev));
            }
        }
        if len == 0 {
            proof {
                let head = old(buf)@.subrange(0, 1);
                let tail = old(buf)@.subrange(1 + bytes, old(buf)@.len() as int);
                assert(buf@.subrange(1, 1 + bytes) == encode_length_spec(length as nat));
                assert(buf@ =~= head + buf@.subrange(1, 1 + bytes) + tail);
                lemma_decode_encode_length(head, length, tail);
            }
            return Ok(bytes);
        }
    }
}

/// Decoding what the encoder wrote gives the value back, whatever stands
/// before and after it in the buffer, and the encoder wrote the fewest bytes
/// that can hold the value.
pub proof fn lemma_decode_encode_length(prefix: Seq<u8>, v: u32, suffix: Seq<u8>)
    requires
        v <= MAX_REMAINING_LENGTH,
    ensures
        encode_length_spec(v as nat).len() == encoded_len(v as nat),
        spec_decode_length(prefix + encode_length_spec(v as nat) + suffix, prefix.len() as int) == (
            Ok::<u32, CodecError>(v),
            (prefix.len() + encoded_len(v as nat)) as int,
        ),
{
    reveal_with_fuel(encode_length_spec, 5);
    reveal_with_fuel(continuation_run, 5);
    reveal_with_fuel(groups_value, 5);
    lemma_pow128_values();
    let n = v as nat;
    let enc = encode_length_spec(n);
    let buf = prefix + enc + suffix;
    let p = prefix.len() as int;
    assert(enc.len() == encoded_len(n));
    assert forall|i: int| 0 <= i < enc.len() implies #[trigger] buf[p + i] == enc[i] by {}
    if n < 128 {
        assert(enc[0] == n);
        assert(buf[p] == n);
        assert(continuation_run(buf, p, 4) == 0);
        assert(groups_value(buf, p, 1) == n);
    } else if n < 16384 {
        assert(enc[0] == n % 128 + 128);
        assert(enc[1] == n / 128);
        assert(buf[p] == enc[0] && buf[p + 1] == enc[1]);
        assert(continuation_run(buf, p + 1, 3) == 0);
        assert(continuation_run(buf, p, 4) == 1);
        assert(groups_value(buf, p, 2) == n % 128 + (n / 128) * 128);
    } else if n < 2097152 {
        assert(enc[0] == n % 128 + 128);
        assert(enc[1] == (n / 128) % 128 + 128);
        assert(enc[2] == n / 128 / 128);
        assert(buf[p] == enc[0] && buf[p + 1] == enc[1] && buf[p + 2] == enc[2]);
        assert(continuation_run(buf, p + 2, 2) == 0);
        assert(continuation_run(buf, p + 1, 3) == 1);
        assert(continuation_run(buf, p, 4) == 2);
        assert(groups_value(buf, p, 3) == n % 128 + ((n / 128) % 128) * 128 + (n / 128 / 128)
            * 16384);
    } else {
        assert(enc[0] == n % 128 + 128);
        assert(enc[1] == (n / 128) % 128 + 128);
        assert(enc[2] == (n / 128 / 128) % 128 + 128);
        assert(enc[3] == n / 128 / 128 / 128);
        assert(buf[p] == enc[0] && buf[p + 1] == enc[1] && buf[p + 2] == enc[2] && buf[p + 3]
            == enc[3]);
        assert(continuation_run(buf, p + 3, 1) == 0);
        assert(continuation_run(buf, p + 2, 2) == 1);
        assert(continuation_run(buf, p + 1, 3) == 2);
        assert(continuation_run(buf, p, 4) == 3);
        assert(groups_value(buf, p, 4) == n % 128 + ((n / 128) % 128) * 128 + ((n / 128 / 128)
            % 128) * 16384 + (n / 128 / 128 / 128) * 2097152);
    }
}

} // verus!
