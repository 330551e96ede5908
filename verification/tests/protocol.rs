use mqtt_codec::error::CodecError;
use mqtt_codec::protocol::{
    parse_packet, serialize, split_to_message_type_and_header_flags, Auth, Connack, Connect,
    Packet, Pingreq, Publish, CONNECT_BODY_START,
};
use mqtt_codec::protocol_util::{HeaderFlags, QosLevel};

fn no_flags() -> HeaderFlags {
    HeaderFlags { retain: false, qos: QosLevel::AtMostOnce, dup: false }
}

fn connect_packet(connect_flags: u8, fields: &[&[u8]]) -> Vec<u8> {
    let mut body: Vec<u8> = vec![0x00, 0x04, 0x4D, 0x51, 0x54, 0x54, 0x04, connect_flags, 0x00, 0x3C];
    for field in fields {
        body.push((field.len() >> 8) as u8);
        body.push(field.len() as u8);
        body.extend_from_slice(field);
    }
    let mut buf: Vec<u8> = vec![0x10, body.len() as u8];
    buf.extend_from_slice(&body);
    buf
}

fn clean_connect() -> Vec<u8> {
    connect_packet(0x02, &[b"__main__"])
}

#[test]
fn test_parse_connect_not_fields() {
    let buf = clean_connect();
    assert_eq!(buf.len(), 22);
    match parse_packet(&buf).unwrap() {
        Packet::Connect(pack) => {
            assert_eq!(pack.protocol_level, 4);
            assert_eq!(pack.reserved, false);
            assert_eq!(pack.clean_session, true);
            assert_eq!(pack.will_qos, 0);
            assert_eq!(pack.will_retain, false);
            assert_eq!(pack.keep_alive, 60);
            assert_eq!(pack.username, Option::None);
            assert_eq!(pack.password, Option::None);
            assert_eq!(pack.client_id, "__main__".to_string());
            assert_eq!(pack.password, Option::None);
            assert_eq!(pack.will_topic, Option::None);
            assert_eq!(pack.will_message, Option::None);
        }
        _ => unreachable!(),
    }
}

#[test]
fn test_parse_connect_not_client_name() {
    let buf = connect_packet(0x02, &[b""]);
    match parse_packet(&buf).unwrap() {
        Packet::Connect(pack) => assert_eq!(pack.client_id, String::new()),
        _ => unreachable!(),
    }
}

#[test]
fn test_parse_bad_connect() {
    let mut buf = clean_connect();
    buf.truncate(18);
    assert!(parse_packet(&buf).is_err());
    assert_eq!(parse_packet(&buf), Err(CodecError::OutOfBounds));
}

#[test]
fn test_parse_extra_data_in_connect() {
    let mut buf = clean_connect();
    buf.push(0x00);
    assert!(parse_packet(&buf).is_err());
    assert_eq!(parse_packet(&buf), Err(CodecError::TrailingData));
}

#[test]
fn connect_any_trailing_byte_is_refused() {
    let mut extra: u8 = 0;
    loop {
        let mut buf = clean_connect();
        buf.push(extra);
        assert_eq!(parse_packet(&buf), Err(CodecError::TrailingData));
        if extra == 255 {
            break;
        }
        extra += 1;
    }
}

#[test]
fn connect_with_every_optional_field() {
    let buf = connect_packet(0xEE, &[b"cid", b"will/topic", b"bye", b"user", b"secret"]);
    let expected = Connect {
        protocol_level: 4,
        headerflags: no_flags(),
        reserved: false,
        clean_session: true,
        will_qos: 1,
        will_retain: true,
        keep_alive: 60,
        username: Some("user".to_string()),
        client_id: "cid".to_string(),
        password: Some("secret".to_string()),
        will_topic: Some("will/topic".to_string()),
        will_message: Some("bye".to_string()),
    };
    assert_eq!(parse_packet(&buf), Ok(Packet::Connect(expected)));
}

#[test]
fn connect_optional_fields_follow_their_flags() {
    let only_user = connect_packet(0x80, &[b"c", b"user"]);
    match parse_packet(&only_user).unwrap() {
        Packet::Connect(pack) => {
            assert_eq!(pack.username, Some("user".to_string()));
            assert_eq!(pack.password, None);
            assert_eq!(pack.will_topic, None);
            assert_eq!(pack.will_message, None);
            assert_eq!(pack.clean_session, false);
        }
        _ => unreachable!(),
    }
    let only_password = connect_packet(0x40, &[b"c", b"pw"]);
    match parse_packet(&only_password).unwrap() {
        Packet::Connect(pack) => {
            assert_eq!(pack.username, None);
            assert_eq!(pack.password, Some("pw".to_string()));
        }
        _ => unreachable!(),
    }
    let only_will = connect_packet(0x04, &[b"c", b"t", b"m"]);
    match parse_packet(&only_will).unwrap() {
        Packet::Connect(pack) => {
            assert_eq!(pack.will_topic, Some("t".to_string()));
            assert_eq!(pack.will_message, Some("m".to_string()));
            assert_eq!(pack.username, None);
            assert_eq!(pack.password, None);
        }
        _ => unreachable!(),
    }
    let flag_without_field = connect_packet(0x80, &[b"c"]);
    assert_eq!(parse_packet(&flag_without_field), Err(CodecError::OutOfBounds));
    let field_without_flag = connect_packet(0x00, &[b"c", b"user"]);
    assert_eq!(parse_packet(&field_without_flag), Err(CodecError::TrailingData));
}

#[test]
fn connect_flag_bits() {
    assert_eq!(
        Connect::unpack_header(0x00),
        (false, false, false, 0, false, false, false)
    );
    assert_eq!(Connect::unpack_header(0x01), (true, false, false, 0, false, false, false));
    assert_eq!(Connect::unpack_header(0x02), (false, true, false, 0, false, false, false));
    assert_eq!(Connect::unpack_header(0x04), (false, false, true, 0, false, false, false));
    assert_eq!(Connect::unpack_header(0x08), (false, false, false, 1, false, false, false));
    assert_eq!(Connect::unpack_header(0x10), (false, false, false, 2, false, false, false));
    assert_eq!(Connect::unpack_header(0x18), (false, false, false, 3, false, false, false));
    assert_eq!(Connect::unpack_header(0x20), (false, false, false, 0, true, false, false));
    assert_eq!(Connect::unpack_header(0x40), (false, false, false, 0, false, true, false));
    assert_eq!(Connect::unpack_header(0x80), (false, false, false, 0, false, false, true));
    assert_eq!(Connect::unpack_header(0xFF), (true, true, true, 3, true, true, true));
    assert_eq!(
        Connect::parse_will_qos([false, false, false, true, false, false, false, false]),
        1
    );
    assert_eq!(
        Connect::parse_will_qos([true, true, true, false, true, true, true, true]),
        2
    );
}

#[test]
fn connect_body_is_read_from_the_fixed_start() {
    assert_eq!(CONNECT_BODY_START, 8);
    let buf = clean_connect();
    let mut pointer: usize = 8;
    let unpacked = Connect::unpack(&buf, &mut pointer, no_flags()).unwrap();
    assert_eq!(pointer, buf.len());
    assert_eq!(Connect::parse(&buf, no_flags()), Ok(unpacked));
    let mut long_header = clean_connect();
    long_header[1] = 0x94;
    long_header.insert(2, 0x00);
    assert!(parse_packet(&long_header).is_err());
}

#[test]
fn connect_rejects_invalid_utf8_client_id() {
    let buf = connect_packet(0x02, &[&[0xFF, 0xFE]]);
    assert_eq!(parse_packet(&buf), Err(CodecError::InvalidUtf8));
}

#[test]
fn connect_new_keeps_the_fields() {
    let flags = HeaderFlags { retain: true, qos: QosLevel::AtLeastOnce, dup: true };
    let c = Connect::new(
        4,
        flags,
        false,
        true,
        2,
        true,
        7,
        Some("u".to_string()),
        "id".to_string(),
        Some("p".to_string()),
        Some("t".to_string()),
        Some("m".to_string()),
    );
    assert_eq!(c.protocol_level, 4);
    assert_eq!(c.headerflags, flags);
    assert_eq!(c.will_qos, 2);
    assert_eq!(c.keep_alive, 7);
    assert_eq!(c.username, Some("u".to_string()));
    assert_eq!(c.client_id, "id".to_string());
    assert_eq!(c.password, Some("p".to_string()));
    assert_eq!(c.will_topic, Some("t".to_string()));
    assert_eq!(c.will_message, Some("m".to_string()));
}

#[test]
fn connack_decodes_session_and_return_code() {
    let buf: Vec<u8> = vec![0x20, 0x02, 0x01, 0x05];
    assert_eq!(
        parse_packet(&buf),
        Ok(Packet::Connack(Connack { headerflags: no_flags(), sp: true, rc: 5 }))
    );
    let reserved_bits: Vec<u8> = vec![0x20, 0x02, 0xFE, 0xFF];
    assert_eq!(
        parse_packet(&reserved_bits),
        Ok(Packet::Connack(Connack { headerflags: no_flags(), sp: false, rc: 255 }))
    );
    let long_header: Vec<u8> = vec![0x20, 0x82, 0x00, 0x01, 0x00];
    assert_eq!(
        parse_packet(&long_header),
        Ok(Packet::Connack(Connack { headerflags: no_flags(), sp: true, rc: 0 }))
    );
    assert_eq!(Connack::new(no_flags(), true, 3), Connack { headerflags: no_flags(), sp: true, rc: 3 });
}

#[test]
fn connack_failures() {
    let short: Vec<u8> = vec![0x20, 0x02, 0x01];
    assert_eq!(parse_packet(&short), Err(CodecError::OutOfBounds));
    let long: Vec<u8> = vec![0x20, 0x02, 0x01, 0x00, 0x00];
    assert_eq!(parse_packet(&long), Err(CodecError::TrailingData));
    let buf: Vec<u8> = vec![0x01, 0x00];
    let mut pointer: usize = 0;
    assert_eq!(
        Connack::unpack(&buf, &mut pointer, no_flags()),
        Ok(Connack { headerflags: no_flags(), sp: true, rc: 0 })
    );
    assert_eq!(pointer, 2);
}

fn publish_packet(first: u8, topic: &[u8], packet_id: Option<u16>, payload: &[u8]) -> Vec<u8> {
    let mut body: Vec<u8> = vec![(topic.len() >> 8) as u8, topic.len() as u8];
    body.extend_from_slice(topic);
    if let Some(id) = packet_id {
        body.push((id >> 8) as u8);
        body.push(id as u8);
    }
    body.extend_from_slice(payload);
    let mut buf: Vec<u8> = vec![first];
    let mut len = body.len();
    loop {
        let mut d = (len % 128) as u8;
        len /= 128;
        if len > 0 {
            d |= 128;
        }
        buf.push(d);
        if len == 0 {
            break;
        }
    }
    buf.extend_from_slice(&body);
    buf
}

#[test]
fn publish_at_most_once_has_no_packet_id() {
    let buf = publish_packet(0x31, b"a/b", None, b"hello");
    assert_eq!(buf[1], 10);
    match parse_packet(&buf).unwrap() {
        Packet::Publish(p) => {
            assert_eq!(p.topic_name, "a/b".to_string());
            assert_eq!(p.packet_id, None);
            assert_eq!(p.payload, b"hello".to_vec());
            assert_eq!(p.payload.len(), 10 - 2 - 3);
            assert_eq!(
                p.headerflags,
                HeaderFlags { retain: true, qos: QosLevel::AtMostOnce, dup: false }
            );
        }
        _ => unreachable!(),
    }
}

#[test]
fn publish_above_at_most_once_has_a_packet_id() {
    let buf = publish_packet(0x32, b"a/b", Some(0x1234), b"hello");
    assert_eq!(buf[1], 12);
    match parse_packet(&buf).unwrap() {
        Packet::Publish(p) => {
            assert_eq!(p.topic_name, "a/b".to_string());
            assert_eq!(p.packet_id, Some(0x1234));
            assert_eq!(p.payload, b"hello".to_vec());
            assert_eq!(p.payload.len(), 12 - 2 - 3 - 2);
            assert_eq!(p.headerflags.qos, QosLevel::AtLeastOnce);
        }
        _ => unreachable!(),
    }
    let buf = publish_packet(0x3C, "t\u{E9}".as_bytes(), Some(7), b"");
    match parse_packet(&buf).unwrap() {
        Packet::Publish(p) => {
            assert_eq!(p.topic_name, "t\u{E9}".to_string());
            assert_eq!(p.packet_id, Some(7));
            assert_eq!(p.payload, Vec::<u8>::new());
            assert_eq!(
                p.headerflags,
                HeaderFlags { retain: false, qos: QosLevel::ExactlyOnce, dup: true }
            );
        }
        _ => unreachable!(),
    }
}

#[test]
fn publish_with_a_long_payload() {
    let payload: Vec<u8> = vec![0xAB; 300];
    let buf = publish_packet(0x30, b"topic", None, &payload);
    assert_eq!(&buf[1..3], &[0xB3, 0x02]);
    match parse_packet(&buf).unwrap() {
        Packet::Publish(p) => {
            assert_eq!(p.payload.len(), 307 - 2 - 5);
            assert_eq!(p.payload, payload);
        }
        _ => unreachable!(),
    }
}

#[test]
fn publish_length_mismatches() {
    let mut declared_short = publish_packet(0x30, b"a/b", None, b"hello");
    declared_short[1] = 9;
    assert_eq!(parse_packet(&declared_short), Err(CodecError::TrailingData));
    let mut declared_long = publish_packet(0x30, b"a/b", None, b"hello");
    declared_long[1] = 11;
    assert_eq!(parse_packet(&declared_long), Err(CodecError::OutOfBounds));
    let mut below_topic = publish_packet(0x30, b"a/b", None, b"");
    below_topic[1] = 4;
    assert_eq!(parse_packet(&below_topic), Err(CodecError::MalformedLength));
    let mut below_packet_id = publish_packet(0x32, b"a/b", Some(1), b"");
    below_packet_id[1] = 6;
    assert_eq!(parse_packet(&below_packet_id), Err(CodecError::MalformedLength));
    let no_packet_id: Vec<u8> = vec![0x32, 0x05, 0x00, 0x03, 0x61, 0x2F, 0x62];
    assert_eq!(parse_packet(&no_packet_id), Err(CodecError::OutOfBounds));
    let bad_topic: Vec<u8> = vec![0x30, 0x03, 0x00, 0x01, 0xFF];
    assert_eq!(parse_packet(&bad_topic), Err(CodecError::InvalidUtf8));
}

#[test]
fn publish_unpack_from_a_cursor() {
    let body: Vec<u8> = vec![0x00, 0x01, 0x74, 0x00, 0x09, 0x01, 0x02];
    let flags = HeaderFlags { retain: false, qos: QosLevel::ExactlyOnce, dup: false };
    let mut pointer: usize = 0;
    let p = Publish::unpack(&body, &mut pointer, flags, 7).unwrap();
    assert_eq!(pointer, 7);
    assert_eq!(p, Publish::new(flags, "t".to_string(), Some(9), vec![1, 2]));
    let mut pointer: usize = 0;
    let p = Publish::unpack(&body, &mut pointer, no_flags(), 7).unwrap();
    assert_eq!(p, Publish::new(no_flags(), "t".to_string(), None, vec![0, 9, 1, 2]));
}

#[test]
fn empty_buffer_is_out_of_bounds() {
    let buf: Vec<u8> = vec![];
    assert_eq!(parse_packet(&buf), Err(CodecError::OutOfBounds));
}

#[test]
fn unknown_packet_type_carries_the_type_byte() {
    for first in [0x00u8, 0x01, 0x02, 0x03, 0x04, 0x05, 0x08, 0x09, 0x0A, 0x0B, 0x0C, 0x0D] {
        let alone: Vec<u8> = vec![first];
        assert_eq!(parse_packet(&alone), Err(CodecError::UnsupportedPacketType(0x00)));
        let with_body: Vec<u8> = vec![first, 0x02, 0x00, 0x00];
        assert_eq!(parse_packet(&with_body), Err(CodecError::UnsupportedPacketType(0x00)));
        let with_bad_length: Vec<u8> = vec![first, 0xFF, 0xFF, 0xFF, 0xFF];
        assert_eq!(parse_packet(&with_bad_length), Err(CodecError::UnsupportedPacketType(0x00)));
    }
}

#[test]
fn body_must_be_as_long_as_declared() {
    let too_much_declared: Vec<u8> = vec![0x20, 0x05, 0x00, 0x00];
    assert_eq!(parse_packet(&too_much_declared), Err(CodecError::MalformedLength));
    let too_little_declared: Vec<u8> = vec![0x20, 0x01, 0x00, 0x00];
    assert_eq!(parse_packet(&too_little_declared), Err(CodecError::MalformedLength));
    let none_declared: Vec<u8> = vec![0x20, 0x00, 0x01, 0x00];
    assert_eq!(parse_packet(&none_declared), Err(CodecError::MalformedLength));
    let mut connect = clean_connect();
    assert_eq!(connect[1], 20);
    connect[1] = 21;
    assert_eq!(parse_packet(&connect), Err(CodecError::MalformedLength));
    connect[1] = 19;
    assert_eq!(parse_packet(&connect), Err(CodecError::MalformedLength));
    connect[1] = 0;
    assert_eq!(parse_packet(&connect), Err(CodecError::MalformedLength));
    connect[1] = 20;
    assert!(parse_packet(&connect).is_ok());
}

#[test]
fn reserved_qos_is_refused_for_every_packet_type() {
    let mut nibble: u8 = 0;
    while nibble < 16 {
        for low in [0x06u8, 0x07, 0x0E, 0x0F] {
            let first = (nibble << 4) | low;
            let alone: Vec<u8> = vec![first];
            assert_eq!(parse_packet(&alone), Err(CodecError::InvalidQos(3)));
            let with_body: Vec<u8> = vec![first, 0x02, 0x00, 0x00];
            assert_eq!(parse_packet(&with_body), Err(CodecError::InvalidQos(3)));
            assert_eq!(
                split_to_message_type_and_header_flags(first),
                Err(CodecError::InvalidQos(3))
            );
        }
        nibble += 1;
    }
}

#[test]
fn split_first_byte() {
    assert_eq!(split_to_message_type_and_header_flags(0x10), Ok((0x10, no_flags())));
    assert_eq!(
        split_to_message_type_and_header_flags(0x3D),
        Ok((0x30, HeaderFlags { retain: true, qos: QosLevel::ExactlyOnce, dup: true }))
    );
    assert_eq!(
        split_to_message_type_and_header_flags(0xF2),
        Ok((0xF0, HeaderFlags { retain: false, qos: QosLevel::AtLeastOnce, dup: false }))
    );
    assert_eq!(split_to_message_type_and_header_flags(0x00), Ok((0x00, no_flags())));
}

#[test]
fn packet_types_without_a_decoder_are_not_implemented() {
    for first in [0x40u8, 0x50, 0x60, 0x70, 0x80, 0x90, 0xA0, 0xB0, 0xC0, 0xD0, 0xE0, 0xF0] {
        let buf: Vec<u8> = vec![first, 0x00];
        assert_eq!(parse_packet(&buf), Err(CodecError::NotImplemented));
        let with_body: Vec<u8> = vec![first, 0x02, 0x00, 0x01];
        assert_eq!(parse_packet(&with_body), Err(CodecError::NotImplemented));
    }
}

#[test]
fn malformed_remaining_length_in_a_packet() {
    let too_long: Vec<u8> = vec![0x30, 0x80, 0x80, 0x80, 0x80, 0x01];
    assert_eq!(parse_packet(&too_long), Err(CodecError::MalformedLength));
    let cut: Vec<u8> = vec![0x20, 0x80];
    assert_eq!(parse_packet(&cut), Err(CodecError::OutOfBounds));
    let header_only: Vec<u8> = vec![0x20];
    assert_eq!(parse_packet(&header_only), Err(CodecError::OutOfBounds));
}

#[test]
fn encoding_is_not_implemented() {
    let connack = Connack::new(no_flags(), false, 0);
    assert_eq!(connack.send_bytes(), Err(CodecError::NotImplemented));
    let publish = Publish::new(no_flags(), "t".to_string(), None, vec![]);
    assert_eq!(publish.send_bytes(), Err(CodecError::NotImplemented));
    let connect = match parse_packet(&clean_connect()).unwrap() {
        Packet::Connect(c) => c,
        _ => unreachable!(),
    };
    assert_eq!(connect.send_bytes(), Err(CodecError::NotImplemented));
    assert_eq!(serialize(&Packet::Connect(connect)), Err(CodecError::NotImplemented));
    assert_eq!(serialize(&Packet::Connack(connack)), Err(CodecError::NotImplemented));
    assert_eq!(serialize(&Packet::Publish(publish)), Err(CodecError::NotImplemented));
    assert_eq!(serialize(&Packet::Pingreq(Pingreq {})), Err(CodecError::NotImplemented));
    assert_eq!(serialize(&Packet::Auth(Auth {})), Err(CodecError::NotImplemented));
}

#[test]
fn trailing_bytes_are_refused_for_every_decoder() {
    let mut connect = connect_packet(0xC6, &[b"c", b"t", b"m", b"u", b"p"]);
    assert!(parse_packet(&connect).is_ok());
    connect.extend_from_slice(&[1, 2, 3]);
    assert_eq!(parse_packet(&connect), Err(CodecError::TrailingData));
    let mut connack: Vec<u8> = vec![0x20, 0x02, 0x00, 0x00];
    assert!(parse_packet(&connack).is_ok());
    connack.push(0x00);
    assert_eq!(parse_packet(&connack), Err(CodecError::TrailingData));
    let mut publish = publish_packet(0x34, b"a/b", Some(2), b"hello");
    assert!(parse_packet(&publish).is_ok());
    publish.push(0x21);
    assert_eq!(parse_packet(&publish), Err(CodecError::TrailingData));
    let mut publish = publish_packet(0x30, b"", None, b"");
    assert!(parse_packet(&publish).is_ok());
    publish.extend_from_slice(&[0, 0]);
    assert_eq!(parse_packet(&publish), Err(CodecError::TrailingData));
}
