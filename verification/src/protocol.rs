//! The packets and their decoders.
//!
//! `parse_packet` reads the fixed header of one complete packet, finds the
//! packet type and hands the body to the decoder of that type. A decoder reads
//! its fields one after the other and accepts the packet only if the cursor
//! then stands at the end of the buffer.

use vstd::prelude::*;
use vstd::arithmetic::power2::lemma2_to64;
use vstd::utf8::{decode_utf8_encode_utf8, encode_utf8};
use crate::error::CodecError;
use crate::pack::{
    be_u16, bit_value, byte_bits, in_bounds, spec_unpack_string, spec_unpack_u16, spec_unpack_u8,
    unpack_byte, unpack_string, unpack_u16, unpack_u8, unpack_vec,
};
use crate::protocol_util::{
    continuation_run, decode_length, groups_value, spec_decode_length, valid_all_data_parsed,
    HeaderFlags, QosLevel, AUTH, CONNACK_BYTE, CONNECT_BYTE, DISCONNECT, PINGREQ, PINGRESP_BYTE,
    PUBACK_BYTE, PUBCOMP_BYTE, PUBLISH_BYTE, PUBREC_BYTE, PUBREL_BYTE, SUBACK_BYTE,
    SUBSCRIBE_BYTE, UNSUBACK_BYTE, UNSUBSCRIBE_BYTE,
};

verus! {

/// One decoded packet.
#[derive(Debug, PartialEq, Eq, Clone)]
pub enum Packet {
    Connect(Connect),
    Connack(Connack),
    Publish(Publish),
    Puback(Puback),
    Pubrec(Pubrec),
    Pubrel(Pubrel),
    Pubcomp(Pubcomp),
    Subscribe(Subscribe),
    Suback(Suback),
    Unsubscribe(Unsubscribe),
    Unsuback(Unsuback),
    Pingreq(Pingreq),
    Pingresp(Pingresp),
    Disconnect(Disconnect),
    Auth(Auth),
}

/// A request to open a session.
#[derive(Debug, PartialEq, Eq, Clone)]
pub struct Connect {
    pub protocol_level: u8,
    pub headerflags: HeaderFlags,
    pub reserved: bool,
    pub clean_session: bool,
    pub will_qos: u8,
    pub will_retain: bool,
    pub keep_alive: u16,
    pub username: Option<String>,
    pub client_id: String,
    pub password: Option<String>,
    pub will_topic: Option<String>,
    pub will_message: Option<String>,
}

/// The answer to a `Connect`.
#[derive(Debug, PartialEq, Eq, Clone, Copy)]
pub struct Connack {
    pub headerflags: HeaderFlags,
    pub sp: bool,
    pub rc: u16,
}

/// A message sent to a topic.
#[derive(Debug, PartialEq, Eq, Clone)]
pub struct Publish {
    pub headerflags: HeaderFlags,
    pub topic_name: String,
    pub packet_id: Option<u16>,
    pub payload: Vec<u8>,
}

/// A packet whose body has no fields yet.
#[derive(Debug, PartialEq, Eq, Clone, Copy)]
pub struct Puback {}

/// A packet whose body has no fields yet.
#[derive(Debug, PartialEq, Eq, Clone, Copy)]
pub struct Pubrec {}

/// A packet whose body has no fields yet.
#[derive(Debug, PartialEq, Eq, Clone, Copy)]
pub struct Pubrel {}

/// A packet whose body has no fields yet.
#[derive(Debug, PartialEq, Eq, Clone, Copy)]
pub struct Pubcomp {}

/// A packet whose body has no fields yet.
#[derive(Debug, PartialEq, Eq, Clone, Copy)]
pub struct Subscribe {}

/// A packet whose body has no fields yet.
#[derive(Debug, PartialEq, Eq, Clone, Copy)]
pub struct Suback {}

/// A packet whose body has no fields yet.
#[derive(Debug, PartialEq, Eq, Clone, Copy)]
pub struct Unsubscribe {}

/// A packet whose body has no fields yet.
#[derive(Debug, PartialEq, Eq, Clone, Copy)]
pub struct Unsuback {}

/// A packet whose body has no fields yet.
#[derive(Debug, PartialEq, Eq, Clone, Copy)]
pub struct Pingreq {}

/// A packet whose body has no fields yet.
#[derive(Debug, PartialEq, Eq, Clone, Copy)]
pub struct Pingresp {}

/// A packet whose body has no fields yet.
#[derive(Debug, PartialEq, Eq, Clone, Copy)]
pub struct Disconnect {}

/// A packet whose body has no fields yet.
#[derive(Debug, PartialEq, Eq, Clone, Copy)]
pub struct Auth {}

/// The characters of an optional string.
pub open spec fn option_string_view(s: Option<String>) -> Option<Seq<char>> {
    match s {
        Some(s) => Some(s@),
        None => None,
    }
}

/// What a `Connect` holds, its strings taken as sequences of characters.
pub struct ConnectView {
    pub protocol_level: u8,
    pub headerflags: HeaderFlags,
    pub reserved: bool,
    pub clean_session: bool,
    pub will_qos: u8,
    pub will_retain: bool,
    pub keep_alive: u16,
    pub username: Option<Seq<char>>,
    pub client_id: Seq<char>,
    pub password: Option<Seq<char>>,
    pub will_topic: Option<Seq<char>>,
    pub will_message: Option<Seq<char>>,
}

impl View for Connect {
    type V = ConnectView;

    open spec fn view(&self) -> ConnectView {
        ConnectView {
            protocol_level: self.protocol_level,
            headerflags: self.headerflags,
            reserved: self.reserved,
            clean_session: self.clean_session,
            will_qos: self.will_qos,
            will_retain: self.will_retain,
            keep_alive: self.keep_alive,
            username: option_string_view(self.username),
            client_id: self.client_id@,
            password: option_string_view(self.password),
            will_topic: option_string_view(self.will_topic),
            will_message: option_string_view(self.will_message),
        }
    }
}

/// What a `Publish` holds, its topic taken as a sequence of characters and
/// its payload as a sequence of bytes.
pub struct PublishView {
    pub headerflags: HeaderFlags,
    pub topic_name: Seq<char>,
    pub packet_id: Option<u16>,
    pub payload: Seq<u8>,
}

impl View for Publish {
    type V = PublishView;

    open spec fn view(&self) -> PublishView {
        PublishView {
            headerflags: self.headerflags,
            topic_name: self.topic_name@,
            packet_id: self.packet_id,
            payload: self.payload@,
        }
    }
}

/// The will quality-of-service number in the connect flags: bit 3 is its low
/// bit and bit 4 its high bit.
pub open spec fn will_qos_bits(bits: Seq<bool>) -> int {
    bit_value(bits[3]) + 2 * bit_value(bits[4])
}

/// The connect flags, in the order in which `Connect::unpack_header` returns
/// them: reserved, clean session, will, will quality of service, will
/// retain, password, username.
pub open spec fn spec_unpack_header(byte: u8) -> (bool, bool, bool, u8, bool, bool, bool) {
    let bits = byte_bits(byte);
    (bits[0], bits[1], bits[2], will_qos_bits(bits) as u8, bits[5], bits[6], bits[7])
}

/// What reading a field that is a string if `present`, and absent otherwise,
/// gives at `pos`, and where it leaves the cursor.
pub open spec fn spec_unpack_optional_string(present: bool, buf: Seq<u8>, pos: int) -> (
    Result<Option<Seq<char>>, CodecError>,
    int,
) {
    if present {
        match spec_unpack_string(buf, pos).0 {
            Ok(s) => (Ok(Some(s)), spec_unpack_string(buf, pos).1),
            Err(e) => (Err(e), spec_unpack_string(buf, pos).1),
        }
    } else {
        (Ok(None), pos)
    }
}

/// The most bytes that the fields of a `Connect` body can take: four bytes of
/// fixed fields and five strings, each with its two-byte prefix.
pub const CONNECT_MAX_SPAN: usize = 327_689;

/// Where the body of a `Connect` starts: behind a two-byte fixed header and
/// the six bytes of the protocol name.
pub const CONNECT_BODY_START: usize = 8;

/// A `Connect` read, taken by its view, or the error of a failed read.
pub open spec fn connect_result_view(r: Result<Connect, CodecError>) -> Result<
    ConnectView,
    CodecError,
> {
    match r {
        Ok(c) => Ok(c@),
        Err(e) => Err(e),
    }
}

impl Connect {
    /// A `Connect` with the given fields.
    pub fn new(
        protocol_level: u8,
        headerflags: HeaderFlags,
        reserved: bool,
        clean_session: bool,
        will_qos: u8,
        will_retain: bool,
        keep_alive: u16,
        username: Option<String>,
        client_id: String,
        password: Option<String>,
        will_topic: Option<String>,
        will_message: Option<String>,
    ) -> (r: Connect)
        ensures
            r == (Connect {
                protocol_level,
                headerflags,
                reserved,
                clean_session,
                will_qos,
                will_retain,
                keep_alive,
                username,
                client_id,
                password,
                will_topic,
                will_message,
            }),
    {
        Connect {
            protocol_level,
            headerflags,
            reserved,
            clean_session,
            will_qos,
            will_retain,
            keep_alive,
            client_id,
            username,
            password,
            will_topic,
            will_message,
        }
    }

    /// The will quality of service held in bits 3 and 4 of the connect flags.
    pub fn parse_will_qos(byte: [bool; 8]) -> (r: u8)
        ensures
            r == will_qos_bits(byte@),
            r <= 3,
    {
        let num: u8 = if byte[4] {
            2
        } else {
            0
        };
        if byte[3] {
            num + 1
        } else {
            num
        }
    }

    /// Splits the connect-flags byte into its fields.
    pub fn unpack_header(byte: u8) -> (r: (bool, bool, bool, u8, bool, bool, bool))
        ensures
            r == spec_unpack_header(byte),
    {
        let byte_split = unpack_byte(byte);
        let will_qos = Self::parse_will_qos(byte_split);
        (
            byte_split[0],
            byte_split[1],
            byte_split[2],
            will_qos,
            byte_split[5],
            byte_split[6],
            byte_split[7],
        )
    }

    /// What decoding the body of a `Connect` at `pos` gives, and where it
    /// leaves the cursor.
    ///
    /// The fields stand in this order: protocol level, connect flags,
    /// keep-alive, client identifier; then will topic and will message if the
    /// will flag is set, the user name if its flag is set, the password if its
    /// flag is set. The first field that cannot be read decides the error, and
    /// bytes left over after the last field are an error too.
    pub open spec fn spec_unpack(buf: Seq<u8>, pos: int, headerflags: HeaderFlags) -> (
        Result<ConnectView, CodecError>,
        int,
    ) {
        let level = spec_unpack_u8(buf, pos);
        let flags = spec_unpack_u8(buf, level.1);
        let keep_alive = spec_unpack_u16(buf, flags.1);
        let client_id = spec_unpack_string(buf, keep_alive.1);
        if level.0 is Err {
            (Err(level.0->Err_0), level.1)
        } else if flags.0 is Err {
            (Err(flags.0->Err_0), flags.1)
        } else if keep_alive.0 is Err {
            (Err(keep_alive.0->Err_0), keep_alive.1)
        } else if client_id.0 is Err {
            (Err(client_id.0->Err_0), client_id.1)
        } else {
            let header = spec_unpack_header(flags.0->Ok_0);
            let will_topic = spec_unpack_optional_string(header.2, buf, client_id.1);
            let will_message = spec_unpack_optional_string(header.2, buf, will_topic.1);
            let username = spec_unpack_optional_string(header.6, buf, will_message.1);
            let password = spec_unpack_optional_string(header.5, buf, username.1);
            if will_topic.0 is Err {
                (Err(will_topic.0->Err_0), will_topic.1)
            } else if will_message.0 is Err {
                (Err(will_message.0->Err_0), will_message.1)
            } else if username.0 is Err {
                (Err(username.0->Err_0), username.1)
            } else if password.0 is Err {
                (Err(password.0->Err_0), password.1)
            } else if password.1 != buf.len() {
                (Err(CodecError::TrailingData), password.1)
            } else {
                (
                    Ok(
                        ConnectView {
                            protocol_level: level.0->Ok_0,
                            headerflags,
                            reserved: header.0,
                            clean_session: header.1,
                            will_qos: header.3,
                            will_retain: header.4,
                            keep_alive: keep_alive.0->Ok_0,
                            username: username.0->Ok_0,
                            client_id: client_id.0->Ok_0,
                            password: password.0->Ok_0,
                            will_topic: will_topic.0->Ok_0,
                            will_message: will_message.0->Ok_0,
                        },
                    ),
                    password.1,
                )
            }
        }
    }

    /// Decodes the body of a `Connect` that starts under the cursor.
    ///
    /// Each optional field is present exactly if its flag is set. On success
    /// the cursor stands at the end of the buffer.
    pub fn unpack(buf: &Vec<u8>, pbuf: &mut usize, headerflags: HeaderFlags) -> (r: Result<
        Connect,
        CodecError,
    >)
        requires
            *old(pbuf) + CONNECT_MAX_SPAN <= usize::MAX,
        ensures
            connect_result_view(r) == Self::spec_unpack(buf@, *old(pbuf) as int, headerflags).0,
            *final(pbuf) == Self::spec_unpack(buf@, *old(pbuf) as int, headerflags).1,
            r is Ok ==> *final(pbuf) == buf.len(),
    {
        let protocol_level = match unpack_u8(buf, pbuf) {
            Ok(v) => v,
            Err(e) => {
                return Err(e);
            },
        };
        let connect_flags = match unpack_u8(buf, pbuf) {
            Ok(v) => v,
            Err(e) => {
                return Err(e);
            },
        };
        let (reserved, clean_session, will, will_qos, will_retain, password_flag, username_flag) =
            Self::unpack_header(connect_flags);
        let keep_alive = match unpack_u16(buf, pbuf) {
            Ok(v) => v,
            Err(e) => {
                return Err(e);
            },
        };
        let client_id = match unpack_string(buf, pbuf) {
            Ok(v) => v,
            Err(e) => {
                return Err(e);
            },
        };
        let mut will_topic: Option<String> = None;
        let mut will_message: Option<String> = None;
        let mut username: Option<String> = None;
        let mut password: Option<String> = None;
        if will {
            match unpack_string(buf, pbuf) {
                Ok(v) => {
                    will_topic = Some(v);
                },
                Err(e) => {
                    return Err(e);
                },
            }
            match unpack_string(buf, pbuf) {
                Ok(v) => {
                    will_message = Some(v);
                },
                Err(e) => {
                    return Err(e);
                },
            }
        }
        if username_flag {
            match unpack_string(buf, pbuf) {
                Ok(v) => {
                    username = Some(v);
                },
                Err(e) => {
                    return Err(e);
                },
            }
        }
        if password_flag {
            match unpack_string(buf, pbuf) {
                Ok(v) => {
                    password = Some(v);
                },
                Err(e) => {
                    return Err(e);
                },
            }
        }
        match valid_all_data_parsed(buf, pbuf) {
            Ok(()) => {},
            Err(e) => {
                return Err(e);
            },
        }
        Ok(
            Self::new(
                protocol_level,
                headerflags,
                reserved,
                clean_session,
                will_qos,
                will_retain,
                keep_alive,
                username,
                client_id,
                password,
                will_topic,
                will_message,
            ),
        )
    }

    /// Decodes a `Connect` from the whole packet: the body is taken to start
    /// at `CONNECT_BODY_START`, wherever the fixed header ended.
    pub fn parse(buf: &Vec<u8>, header_flags: HeaderFlags) -> (r: Result<Connect, CodecError>)
        ensures
            connect_result_view(r) == Self::spec_unpack(
                buf@,
                CONNECT_BODY_START as int,
                header_flags,
            ).0,
    {
        let mut start_pos: usize = CONNECT_BODY_START;
        Self::unpack(buf, &mut start_pos, header_flags)
    }

    /// Encoding a `Connect` is declared and not yet provided: the call
    /// reports so.
    pub fn send_bytes(&self) -> (r: Result<Vec<u8>, CodecError>)
        ensures
            r == Err::<Vec<u8>, CodecError>(CodecError::NotImplemented),
    {
        Err(CodecError::NotImplemented)
    }
}

impl Connack {
    /// A `Connack` with the given fields.
    pub fn new(headerflags: HeaderFlags, sp: bool, rc: u16) -> (r: Connack)
        ensures
            r == (Connack { headerflags, sp, rc }),
    {
        Connack { headerflags, sp, rc }
    }

    /// What decoding the body of a `Connack` at `pos` gives, and where it
    /// leaves the cursor: one byte whose bit 0 says whether a session is
    /// present, one byte of return code, and nothing after them.
    pub open spec fn spec_unpack(buf: Seq<u8>, pos: int, headerflags: HeaderFlags) -> (
        Result<Connack, CodecError>,
        int,
    ) {
        let session = spec_unpack_u8(buf, pos);
        let code = spec_unpack_u8(buf, session.1);
        if session.0 is Err {
            (Err(session.0->Err_0), session.1)
        } else if code.0 is Err {
            (Err(code.0->Err_0), code.1)
        } else if code.1 != buf.len() {
            (Err(CodecError::TrailingData), code.1)
        } else {
            (
                Ok(
                    Connack {
                        headerflags,
                        sp: byte_bits(session.0->Ok_0)[0],
                        rc: code.0->Ok_0 as u16,
                    },
                ),
                code.1,
            )
        }
    }

    /// Decodes the body of a `Connack` that starts under the cursor. On
    /// success the cursor stands at the end of the buffer.
    pub fn unpack(buf: &Vec<u8>, pbuf: &mut usize, headerflags: HeaderFlags) -> (r: Result<
        Connack,
        CodecError,
    >)
        requires
            *old(pbuf) + 2 <= usize::MAX,
        ensures
            r == Self::spec_unpack(buf@, *old(pbuf) as int, headerflags).0,
            *final(pbuf) == Self::spec_unpack(buf@, *old(pbuf) as int, headerflags).1,
            r is Ok ==> *final(pbuf) == buf.len(),
    {
        let session = match unpack_u8(buf, pbuf) {
            Ok(v) => v,
            Err(e) => {
                return Err(e);
            },
        };
        let rc = match unpack_u8(buf, pbuf) {
            Ok(v) => v,
            Err(e) => {
                return Err(e);
            },
        };
        match valid_all_data_parsed(buf, pbuf) {
            Ok(()) => {},
            Err(e) => {
                return Err(e);
            },
        }
        let bits = unpack_byte(session);
        Ok(Self::new(headerflags, bits[0], rc as u16))
    }

    /// Encoding a `Connack` is declared and not yet provided: the call
    /// reports so.
    pub fn send_bytes(&self) -> (r: Result<Vec<u8>, CodecError>)
        ensures
            r == Err::<Vec<u8>, CodecError>(CodecError::NotImplemented),
    {
        Err(CodecError::NotImplemented)
    }
}

/// The most bytes that the fields before the payload of a `Publish` can
/// take: the topic with its two-byte prefix and a packet identifier.
pub const PUBLISH_MAX_SPAN: usize = 65_539;

/// A `Publish` read, taken by its view, or the error of a failed read.
pub open spec fn publish_result_view(r: Result<Publish, CodecError>) -> Result<
    PublishView,
    CodecError,
> {
    match r {
        Ok(p) => Ok(p@),
        Err(e) => Err(e),
    }
}

impl Publish {
    /// A `Publish` with the given fields.
    pub fn new(
        headerflags: HeaderFlags,
        topic_name: String,
        packet_id: Option<u16>,
        payload: Vec<u8>,
    ) -> (r: Publish)
        ensures
            r == (Publish { headerflags, topic_name, packet_id, payload }),
    {
        Publish { headerflags, topic_name, packet_id, payload }
    }

    /// Whether a `Publish` with these flags carries a packet identifier: it
    /// does at every quality of service but the lowest.
    pub open spec fn has_packet_id(headerflags: HeaderFlags) -> bool {
        headerflags.qos != QosLevel::AtMostOnce
    }

    /// What decoding the body of a `Publish` at `pos` gives, and where it
    /// leaves the cursor.
    ///
    /// The topic comes first, then the packet identifier if the flags ask for
    /// one, then the payload. The payload has no length of its own: it is what
    /// is left of `remaining_length` once the topic, its two-byte prefix and
    /// the packet identifier are taken off. A remaining length too small for
    /// those fields is malformed.
    pub open spec fn spec_unpack(
        buf: Seq<u8>,
        pos: int,
        headerflags: HeaderFlags,
        remaining_length: u32,
    ) -> (Result<PublishView, CodecError>, int) {
        let topic = spec_unpack_string(buf, pos);
        let after_topic = remaining_length - (2 + be_u16(buf, pos));
        let has_id = Self::has_packet_id(headerflags);
        let id = if has_id {
            spec_unpack_u16(buf, topic.1)
        } else {
            (Ok(0u16), topic.1)
        };
        let message_len = if has_id {
            after_topic - 2
        } else {
            after_topic
        };
        if topic.0 is Err {
            (Err(topic.0->Err_0), topic.1)
        } else if after_topic < 0 {
            (Err(CodecError::MalformedLength), topic.1)
        } else if id.0 is Err {
            (Err(id.0->Err_0), id.1)
        } else if message_len < 0 {
            (Err(CodecError::MalformedLength), id.1)
        } else if !in_bounds(buf, id.1, message_len) {
            (Err(CodecError::OutOfBounds), id.1)
        } else if id.1 + message_len != buf.len() {
            (Err(CodecError::TrailingData), id.1 + message_len)
        } else {
            (
                Ok(
                    PublishView {
                        headerflags,
                        topic_name: topic.0->Ok_0,
                        packet_id: if has_id {
                            Some(id.0->Ok_0)
                        } else {
                            None
                        },
                        payload: buf.subrange(id.1, id.1 + message_len),
                    },
                ),
                id.1 + message_len,
            )
        }
    }

    /// Decodes the body of a `Publish` that starts under the cursor, given the
    /// remaining length that the fixed header declared.
    ///
    /// On success the packet identifier is present exactly if the quality of
    /// service is above the lowest, the payload is as long as the remaining
    /// length less the fields before it, and the cursor stands at the end of
    /// the buffer.
    pub fn unpack(
        buf: &Vec<u8>,
        pbuf: &mut usize,
        headerflags: HeaderFlags,
        remaining_length: u32,
    ) -> (r: Result<Publish, CodecError>)
        requires
            *old(pbuf) + PUBLISH_MAX_SPAN <= usize::MAX,
        ensures
            publish_result_view(r) == Self::spec_unpack(
                buf@,
                *old(pbuf) as int,
                headerflags,
                remaining_length,
            ).0,
            *final(pbuf) == Self::spec_unpack(
                buf@,
                *old(pbuf) as int,
                headerflags,
                remaining_length,
            ).1,
            r matches Ok(p) ==> {
                &&& *final(pbuf) == buf.len()
                &&& p.packet_id is Some <==> headerflags.qos != QosLevel::AtMostOnce
                &&& encode_utf8(p.topic_name@).len() == be_u16(buf@, *old(pbuf) as int)
                &&& p.payload@.len() == remaining_length - 2 - encode_utf8(p.topic_name@).len() - (
                if headerflags.qos != QosLevel::AtMostOnce {
                    2int
                } else {
                    0int
                })
            },
    {
        let ghost start: int = *pbuf as int;
        let topic_start: usize = *pbuf;
        let topic_name = match unpack_string(buf, pbuf) {
            Ok(v) => v,
            Err(e) => {
                return Err(e);
            },
        };
        let topic_span: usize = *pbuf - topic_start;
        proof {
            decode_utf8_encode_utf8(buf@.subrange(start + 2, start + 2 + be_u16(buf@, start)));
        }
        let declared: usize = remaining_length as usize;
        if declared < topic_span {
            return Err(CodecError::MalformedLength);
        }
        let mut message_len: usize = declared - topic_span;
        let mut packet_id: Option<u16> = None;
        match headerflags.qos {
            QosLevel::AtMostOnce => {},
            _ => {
                match unpack_u16(buf, pbuf) {
                    Ok(v) => {
                        packet_id = Some(v);
                    },
                    Err(e) => {
                        return Err(e);
                    },
                }
                if message_len < 2 {
                    return Err(CodecError::MalformedLength);
                }
                message_len = message_len - 2;
            },
        }
        let payload = match unpack_vec(buf, pbuf, message_len) {
            Ok(v) => v,
            Err(e) => {
                return Err(e);
            },
        };
        match valid_all_data_parsed(buf, pbuf) {
            Ok(()) => {},
            Err(e) => {
                return Err(e);
            },
        }
        Ok(Self::new(headerflags, topic_name, packet_id, payload))
    }

    /// Encoding a `Publish` is declared and not yet provided: the call
    /// reports so.
    pub fn send_bytes(&self) -> (r: Result<Vec<u8>, CodecError>)
        ensures
            r == Err::<Vec<u8>, CodecError>(CodecError::NotImplemented),
    {
        Err(CodecError::NotImplemented)
    }
}

/// What a `Packet` holds, each variant taken by its view.
pub enum PacketView {
    Connect(ConnectView),
    Connack(Connack),
    Publish(PublishView),
    Puback,
    Pubrec,
    Pubrel,
    Pubcomp,
    Subscribe,
    Suback,
    Unsubscribe,
    Unsuback,
    Pingreq,
    Pingresp,
    Disconnect,
    Auth,
}

impl View for Packet {
    type V = PacketView;

    open spec fn view(&self) -> PacketView {
        match *self {
            Packet::Connect(c) => PacketView::Connect(c@),
            Packet::Connack(c) => PacketView::Connack(c),
            Packet::Publish(p) => PacketView::Publish(p@),
            Packet::Puback(_) => PacketView::Puback,
            Packet::Pubrec(_) => PacketView::Pubrec,
            Packet::Pubrel(_) => PacketView::Pubrel,
            Packet::Pubcomp(_) => PacketView::Pubcomp,
            Packet::Subscribe(_) => PacketView::Subscribe,
            Packet::Suback(_) => PacketView::Suback,
            Packet::Unsubscribe(_) => PacketView::Unsubscribe,
            Packet::Unsuback(_) => PacketView::Unsuback,
            Packet::Pingreq(_) => PacketView::Pingreq,
            Packet::Pingresp(_) => PacketView::Pingresp,
            Packet::Disconnect(_) => PacketView::Disconnect,
            Packet::Auth(_) => PacketView::Auth,
        }
    }
}

/// A `Packet` read, taken by its view, or the error of a failed read.
pub open spec fn packet_result_view(r: Result<Packet, CodecError>) -> Result<
    PacketView,
    CodecError,
> {
    match r {
        Ok(p) => Ok(p@),
        Err(e) => Err(e),
    }
}

/// The packet-type byte of a first byte: the byte with its low nibble
/// cleared.
pub open spec fn packet_type_of(byte: u8) -> u8 {
    (byte / 16 * 16) as u8
}

/// Whether `packet_type` is one of the fifteen packet-type bytes.
pub open spec fn is_packet_type(packet_type: u8) -> bool {
    packet_type == CONNECT_BYTE || packet_type == CONNACK_BYTE || packet_type == PUBLISH_BYTE
        || packet_type == PUBACK_BYTE || packet_type == PUBREC_BYTE || packet_type == PUBREL_BYTE
        || packet_type == PUBCOMP_BYTE || packet_type == SUBSCRIBE_BYTE || packet_type
        == SUBACK_BYTE || packet_type == UNSUBSCRIBE_BYTE || packet_type == UNSUBACK_BYTE
        || packet_type == PINGREQ || packet_type == PINGRESP_BYTE || packet_type == DISCONNECT
        || packet_type == AUTH
}

/// What the first byte of a packet splits into: the packet-type byte and the
/// flags held in the low nibble.
pub open spec fn spec_split(byte: u8) -> Result<(u8, HeaderFlags), CodecError> {
    match HeaderFlags::spec_unpack(byte_bits(byte)) {
        Ok(flags) => Ok((packet_type_of(byte), flags)),
        Err(e) => Err(e),
    }
}

/// The low four bits of a byte are the bits of its low nibble.
proof fn lemma_low_nibble_bits(byte: u8, low: u8)
    requires
        low == byte % 16,
    ensures
        byte_bits(low)[0] == byte_bits(byte)[0],
        byte_bits(low)[1] == byte_bits(byte)[1],
        byte_bits(low)[2] == byte_bits(byte)[2],
        byte_bits(low)[3] == byte_bits(byte)[3],
{
    lemma2_to64();
    assert((low / 1u8) % 2 == (byte / 1u8) % 2 && (low / 2u8) % 2 == (byte / 2u8) % 2 && (low
        / 4u8) % 2 == (byte / 4u8) % 2 && (low / 8u8) % 2 == (byte / 8u8) % 2) by (bit_vector)
        requires
            low == byte % 16,
    ;
}

/// Splits the first byte of a packet into the packet-type byte and the
/// flags. The flags are decoded first, so that a reserved quality of service
/// is refused whatever the packet type is.
pub fn split_to_message_type_and_header_flags(bit: u8) -> (r: Result<
    (u8, HeaderFlags),
    CodecError,
>)
    ensures
        r == spec_split(bit),
        byte_bits(bit)[1] && byte_bits(bit)[2] <==> r == Err::<(u8, HeaderFlags), CodecError>(
            CodecError::InvalidQos(3),
        ),
{
    let low: u8 = bit & 0x0F;
    let high: u8 = bit & 0xf0;
    assert(low == bit % 16 && high == bit / 16 * 16) by (bit_vector)
        requires
            low == bit & 0x0F,
            high == bit & 0xf0,
    ;
    proof {
        lemma_low_nibble_bits(bit, low);
    }
    let header_flag = unpack_byte(low);
    match HeaderFlags::unpack(header_flag) {
        Ok(header_flags) => Ok((high, header_flags)),
        Err(e) => Err(e),
    }
}

/// Whether the bytes behind the remaining-length field are as many as the
/// field declares; `length` is what decoding the field gave.
pub open spec fn declared_length_matches(
    buf: Seq<u8>,
    length: (Result<u32, CodecError>, int),
) -> bool {
    length.0 matches Ok(remaining_length) && length.1 + remaining_length == buf.len()
}

/// What decoding one complete packet gives.
///
/// The first byte is split into flags and packet type, in that order; the
/// remaining length follows; the body is then decoded by the packet type. A
/// `Connect` body is taken to start at `CONNECT_BODY_START`, the other bodies
/// where the remaining length ended. Packet types whose body has no decoder
/// yet are reported as not implemented. A body that decodes is accepted only
/// if it is as long as the remaining length declared.
pub open spec fn spec_parse_packet(buf: Seq<u8>) -> Result<PacketView, CodecError> {
    if buf.len() == 0 {
        Err(CodecError::OutOfBounds)
    } else {
        match spec_split(buf[0]) {
            Err(e) => Err(e),
            Ok((packet_type, flags)) => {
                let length = spec_decode_length(buf, 1);
                let body: Result<PacketView, CodecError> = if packet_type == CONNECT_BYTE {
                    match Connect::spec_unpack(buf, CONNECT_BODY_START as int, flags).0 {
                        Ok(c) => Ok(PacketView::Connect(c)),
                        Err(e) => Err(e),
                    }
                } else if packet_type == CONNACK_BYTE {
                    match Connack::spec_unpack(buf, length.1, flags).0 {
                        Ok(c) => Ok(PacketView::Connack(c)),
                        Err(e) => Err(e),
                    }
                } else if packet_type == PUBLISH_BYTE {
                    match Publish::spec_unpack(buf, length.1, flags, length.0->Ok_0).0 {
                        Ok(p) => Ok(PacketView::Publish(p)),
                        Err(e) => Err(e),
                    }
                } else {
                    Err(CodecError::NotImplemented)
                };
                if !is_packet_type(packet_type) {
                    Err(CodecError::UnsupportedPacketType(packet_type))
                } else if length.0 is Err {
                    Err(length.0->Err_0)
                } else if body is Err {
                    body
                } else if !declared_length_matches(buf, length) {
                    Err(CodecError::MalformedLength)
                } else {
                    body
                }
            },
        }
    }
}

/// Whether `packet_type` is one of the fifteen packet-type bytes.
fn is_known_packet_type(packet_type: u8) -> (r: bool)
    ensures
        r == is_packet_type(packet_type),
{
    packet_type == CONNECT_BYTE || packet_type == CONNACK_BYTE || packet_type == PUBLISH_BYTE
        || packet_type == PUBACK_BYTE || packet_type == PUBREC_BYTE || packet_type == PUBREL_BYTE
        || packet_type == PUBCOMP_BYTE || packet_type == SUBSCRIBE_BYTE || packet_type
        == SUBACK_BYTE || packet_type == UNSUBSCRIBE_BYTE || packet_type == UNSUBACK_BYTE
        || packet_type == PINGREQ || packet_type == PINGRESP_BYTE || packet_type == DISCONNECT
        || packet_type == AUTH
}

/// Decodes one complete packet.
///
/// An empty buffer is out of bounds. A first byte with both
/// quality-of-service bits set is refused whatever its packet type is; after
/// that, a first byte that names no packet type is refused with its
/// packet-type byte, whatever follows it. A packet is accepted only if its
/// body is as long as its remaining length declares.
pub fn parse_packet(buf: &Vec<u8>) -> (r: Result<Packet, CodecError>)
    ensures
        packet_result_view(r) == spec_parse_packet(buf@),
        buf.len() > 0 && byte_bits(buf[0])[1] && byte_bits(buf[0])[2] ==> r == Err::<
            Packet,
            CodecError,
        >(CodecError::InvalidQos(3)),
        buf.len() > 0 && !(byte_bits(buf[0])[1] && byte_bits(buf[0])[2]) && !is_packet_type(
            packet_type_of(buf[0]),
        ) ==> r == Err::<Packet, CodecError>(
            CodecError::UnsupportedPacketType(packet_type_of(buf[0])),
        ),
        r is Ok ==> declared_length_matches(buf@, spec_decode_length(buf@, 1)),
        r matches Ok(Packet::Publish(p)) ==> {
            &&& p.packet_id is Some <==> p.headerflags.qos != QosLevel::AtMostOnce
            &&& spec_decode_length(buf@, 1).0 matches Ok(remaining_length)
            &&& p.payload@.len() == remaining_length - 2 - encode_utf8(p.topic_name@).len() - (
            if p.headerflags.qos != QosLevel::AtMostOnce {
                2int
            } else {
                0int
            })
        },
{
    let mut cursor: usize = 0;
    let first = match unpack_u8(buf, &mut cursor) {
        Ok(v) => v,
        Err(e) => {
            return Err(e);
        },
    };
    let (packet_type, header_flags) = match split_to_message_type_and_header_flags(first) {
        Ok(v) => v,
        Err(e) => {
            return Err(e);
        },
    };
    if !is_known_packet_type(packet_type) {
        return Err(CodecError::UnsupportedPacketType(packet_type));
    }
    let remaining_length = match decode_length(buf, &mut cursor) {
        Ok(v) => v,
        Err(e) => {
            return Err(e);
        },
    };
    let body_start: usize = cursor;
    let packet = if packet_type == CONNECT_BYTE {
        match Connect::parse(buf, header_flags) {
            Ok(c) => Packet::Connect(c),
            Err(e) => {
                return Err(e);
            },
        }
    } else if packet_type == CONNACK_BYTE {
        match Connack::unpack(buf, &mut cursor, header_flags) {
            Ok(c) => Packet::Connack(c),
            Err(e) => {
                return Err(e);
            },
        }
    } else if packet_type == PUBLISH_BYTE {
        match Publish::unpack(buf, &mut cursor, header_flags, remaining_length) {
            Ok(p) => Packet::Publish(p),
            Err(e) => {
                return Err(e);
            },
        }
    } else {
        return Err(CodecError::NotImplemented);
    };
    let declared: usize = remaining_length as usize;
    if buf.len() - body_start != declared {
        return Err(CodecError::MalformedLength);
    }
    Ok(packet)
}

/// Encoding a packet is declared and not yet provided for any packet type:
/// the call reports so.
pub fn serialize(packet: &Packet) -> (r: Result<Vec<u8>, CodecError>)
    ensures
        r == Err::<Vec<u8>, CodecError>(CodecError::NotImplemented),
{
    match packet {
        Packet::Connect(c) => c.send_bytes(),
        Packet::Connack(c) => c.send_bytes(),
        Packet::Publish(p) => p.send_bytes(),
        _ => Err(CodecError::NotImplemented),
    }
}

/// A string read that succeeds reads the same from a longer buffer.
proof fn lemma_string_read_extends(buf: Seq<u8>, extra: Seq<u8>, pos: int)
    requires
        spec_unpack_string(buf, pos).0 is Ok,
    ensures
        spec_unpack_string(buf + extra, pos) == spec_unpack_string(buf, pos),
{
    let len = be_u16(buf, pos);
    assert((buf + extra).subrange(pos + 2, pos + 2 + len) =~= buf.subrange(pos + 2, pos + 2 + len));
}

/// An optional string read that succeeds reads the same from a longer
/// buffer.
proof fn lemma_optional_string_read_extends(
    present: bool,
    buf: Seq<u8>,
    extra: Seq<u8>,
    pos: int,
)
    requires
        spec_unpack_optional_string(present, buf, pos).0 is Ok,
    ensures
        spec_unpack_optional_string(present, buf + extra, pos) == spec_unpack_optional_string(
            present,
            buf,
            pos,
        ),
{
    if present {
        lemma_string_read_extends(buf, extra, pos);
    }
}

/// A remaining length that decodes decodes the same from a longer buffer.
proof fn lemma_length_read_extends(buf: Seq<u8>, extra: Seq<u8>, pos: int)
    requires
        0 <= pos,
        spec_decode_length(buf, pos).0 is Ok,
    ensures
        spec_decode_length(buf + extra, pos) == spec_decode_length(buf, pos),
{
    reveal_with_fuel(continuation_run, 5);
    reveal_with_fuel(groups_value, 5);
    let long = buf + extra;
    let run = continuation_run(buf, pos, 4);
    assert forall|i: int| 0 <= i < buf.len() implies #[trigger] long[i] == buf[i] by {}
    assert(long[pos] == buf[pos]);
    if run >= 1 {
        assert(long[pos + 1] == buf[pos + 1]);
    }
    if run >= 2 {
        assert(long[pos + 2] == buf[pos + 2]);
    }
    if run >= 3 {
        assert(long[pos + 3] == buf[pos + 3]);
    }
    assert(continuation_run(long, pos, 4) == run);
    assert(groups_value(long, pos, run + 1) == groups_value(buf, pos, run + 1));
}

/// The decoders are strict about the end of the packet: whatever is appended
/// to a buffer that decodes makes it a buffer that is refused for its
/// trailing data.
pub proof fn lemma_trailing_data_is_refused(buf: Seq<u8>, extra: Seq<u8>)
    requires
        spec_parse_packet(buf) is Ok,
        extra.len() > 0,
    ensures
        spec_parse_packet(buf + extra) == Err::<PacketView, CodecError>(CodecError::TrailingData),
{
    let long = buf + extra;
    assert(long[0] == buf[0]);
    let flags = spec_split(buf[0])->Ok_0.1;
    let packet_type = spec_split(buf[0])->Ok_0.0;
    lemma_length_read_extends(buf, extra, 1);
    let length = spec_decode_length(buf, 1);
    if packet_type == CONNECT_BYTE {
        let start = CONNECT_BODY_START as int;
        let level = spec_unpack_u8(buf, start);
        let connect_flags = spec_unpack_u8(buf, level.1);
        let keep_alive = spec_unpack_u16(buf, connect_flags.1);
        let client_id = spec_unpack_string(buf, keep_alive.1);
        assert(long[start] == buf[start]);
        assert(long[start + 1] == buf[start + 1]);
        assert(long[start + 2] == buf[start + 2]);
        assert(long[start + 3] == buf[start + 3]);
        lemma_string_read_extends(buf, extra, keep_alive.1);
        let header = spec_unpack_header(connect_flags.0->Ok_0);
        let will_topic = spec_unpack_optional_string(header.2, buf, client_id.1);
        let will_message = spec_unpack_optional_string(header.2, buf, will_topic.1);
        let username = spec_unpack_optional_string(header.6, buf, will_message.1);
        let password = spec_unpack_optional_string(header.5, buf, username.1);
        lemma_optional_string_read_extends(header.2, buf, extra, client_id.1);
        lemma_optional_string_read_extends(header.2, buf, extra, will_topic.1);
        lemma_optional_string_read_extends(header.6, buf, extra, will_message.1);
        lemma_optional_string_read_extends(header.5, buf, extra, username.1);
        assert(Connect::spec_unpack(long, start, flags).0 == Err::<ConnectView, CodecError>(
            CodecError::TrailingData,
        ));
    } else if packet_type == CONNACK_BYTE {
        assert(long[length.1] == buf[length.1]);
        assert(long[length.1 + 1] == buf[length.1 + 1]);
        assert(Connack::spec_unpack(long, length.1, flags).0 == Err::<Connack, CodecError>(
            CodecError::TrailingData,
        ));
    } else {
        assert(packet_type == PUBLISH_BYTE);
        let pos = length.1;
        let remaining_length = length.0->Ok_0;
        let topic = spec_unpack_string(buf, pos);
        lemma_string_read_extends(buf, extra, pos);
        assert(long[pos] == buf[pos]);
        assert(long[pos + 1] == buf[pos + 1]);
        if Publish::has_packet_id(flags) {
            assert(long[topic.1] == buf[topic.1]);
            assert(long[topic.1 + 1] == buf[topic.1 + 1]);
        }
        assert(Publish::spec_unpack(long, pos, flags, remaining_length).0 == Err::<
            PublishView,
            CodecError,
        >(CodecError::TrailingData));
    }
}

} // verus!
