use bytes::Bytes;
use peer_wire::bencode::{decimal_len, read_decimal, starts_with_at, write_decimal};
use peer_wire::message::{parse_message, parse_message_length};
use peer_wire::standard::{fits_frame, write_length_id_pair};
use peer_wire::wire::{
    read_u16, read_u32, read_u8, u32_to_usize, usize_to_u32, write_all, write_u16, write_u32,
};
use peer_wire::{
    BitFieldMessage, BitsExtensionMessage, CancelMessage, ExtendedMessage, ExtendedMessageBuilder,
    ExtendedType, HaveMessage, MessageError, PeerExtensionProtocolMessage,
    PeerWireProtocolMessage, PieceMessage, PortMessage, RequestMessage, UnrecognizedMessage,
    UtMetadataDataMessage, UtMetadataMessage, UtMetadataRejectMessage, UtMetadataRequestMessage,
};

fn table() -> Option<ExtendedMessage> {
    Some(
        ExtendedMessageBuilder::new()
            .with_extended_type(ExtendedType::UtMetadata, Some(3))
            .build(),
    )
}

fn samples() -> Vec<PeerWireProtocolMessage> {
    vec![
        PeerWireProtocolMessage::KeepAlive,
        PeerWireProtocolMessage::Choke,
        PeerWireProtocolMessage::UnChoke,
        PeerWireProtocolMessage::Interested,
        PeerWireProtocolMessage::UnInterested,
        PeerWireProtocolMessage::Have(HaveMessage::new(77)),
        PeerWireProtocolMessage::BitField(
            BitFieldMessage::new(Bytes::from(vec![1, 2, 3, 4, 5])).unwrap(),
        ),
        PeerWireProtocolMessage::Request(RequestMessage::new(1, 2, 3)),
        PeerWireProtocolMessage::Piece(
            PieceMessage::new(u32::MAX, 0, Bytes::from(vec![7u8; 300])).unwrap(),
        ),
        PeerWireProtocolMessage::Cancel(CancelMessage::new(u32::MAX, u32::MAX, u32::MAX)),
        PeerWireProtocolMessage::BitsExtension(BitsExtensionMessage::Port(PortMessage::new(6881))),
        PeerWireProtocolMessage::ProtExtension(PeerExtensionProtocolMessage::UtMetadata(
            UtMetadataMessage::Request(UtMetadataRequestMessage::new(12)),
        )),
        PeerWireProtocolMessage::ProtExtension(PeerExtensionProtocolMessage::UtMetadata(
            UtMetadataMessage::Data(
                UtMetadataDataMessage::new(12, Bytes::from(vec![3u8; 1000])).unwrap(),
            ),
        )),
        PeerWireProtocolMessage::ProtExtension(PeerExtensionProtocolMessage::UtMetadata(
            UtMetadataMessage::Reject(UtMetadataRejectMessage::new(0)),
        )),
        PeerWireProtocolMessage::ProtExtension(PeerExtensionProtocolMessage::Unrecognized(
            UnrecognizedMessage::new(200, Bytes::from(vec![1, 2, 3])).unwrap(),
        )),
    ]
}

#[test]
fn every_sample_decodes_to_itself() {
    for message in samples() {
        let mut frame = Vec::new();
        message.write_bytes(&mut frame, &table()).unwrap();
        let decoded = PeerWireProtocolMessage::parse_bytes(Bytes::from(frame), &table());
        assert_eq!(decoded, Ok(message));
    }
}

#[test]
fn every_sample_is_as_long_as_its_size() {
    for message in samples() {
        let mut frame = vec![0xee, 0xee];
        message.write_bytes(&mut frame, &table()).unwrap();
        assert_eq!(frame.len() - 2, message.message_size());
        assert_eq!(&frame[..2], &[0xee, 0xee]);
    }
}

#[test]
fn sizer_answers_the_same_on_every_prefix_from_four_bytes_on() {
    for message in samples() {
        let mut frame = Vec::new();
        message.write_bytes(&mut frame, &table()).unwrap();
        for arrived in 0..frame.len() + 1 {
            let expected = if arrived < 4 { None } else { Some(frame.len()) };
            assert_eq!(
                PeerWireProtocolMessage::bytes_needed(&frame[..arrived]),
                Ok(expected)
            );
        }
        frame.extend_from_slice(&[9, 9, 9]);
        assert_eq!(
            PeerWireProtocolMessage::bytes_needed(&frame),
            Ok(Some(frame.len() - 3))
        );
    }
}

#[test]
fn sizer_adds_the_prefix_to_the_declared_length() {
    assert_eq!(PeerWireProtocolMessage::bytes_needed(&[]), Ok(None));
    assert_eq!(PeerWireProtocolMessage::bytes_needed(&[0, 0, 0]), Ok(None));
    assert_eq!(PeerWireProtocolMessage::bytes_needed(&[0, 0, 0, 0]), Ok(Some(4)));
    assert_eq!(PeerWireProtocolMessage::bytes_needed(&[0, 0, 1, 2]), Ok(Some(262)));
    assert_eq!(
        PeerWireProtocolMessage::bytes_needed(&[0, 1, 0, 0, 7]),
        Ok(Some(65540))
    );
}

#[test]
fn message_sizes_follow_the_table() {
    assert_eq!(PeerWireProtocolMessage::KeepAlive.message_size(), 4);
    assert_eq!(PeerWireProtocolMessage::Choke.message_size(), 5);
    assert_eq!(PeerWireProtocolMessage::UnChoke.message_size(), 5);
    assert_eq!(PeerWireProtocolMessage::Interested.message_size(), 5);
    assert_eq!(PeerWireProtocolMessage::UnInterested.message_size(), 5);
    assert_eq!(PeerWireProtocolMessage::Have(HaveMessage::new(1)).message_size(), 9);
    assert_eq!(
        PeerWireProtocolMessage::Request(RequestMessage::new(1, 2, 3)).message_size(),
        17
    );
    assert_eq!(
        PeerWireProtocolMessage::Cancel(CancelMessage::new(1, 2, 3)).message_size(),
        17
    );
    assert_eq!(
        PeerWireProtocolMessage::Piece(PieceMessage::new(1, 2, Bytes::from(vec![0u8; 10])).unwrap())
            .message_size(),
        23
    );
    assert_eq!(
        PeerWireProtocolMessage::ProtExtension(PeerExtensionProtocolMessage::Unrecognized(
            UnrecognizedMessage::new(1, Bytes::from(vec![0u8; 10])).unwrap()
        ))
        .message_size(),
        16
    );
}

#[test]
fn core_table_wins_over_the_negotiated_table() {
    let greedy = Some(
        ExtendedMessageBuilder::new()
            .with_extended_type(ExtendedType::UtMetadata, Some(4))
            .build(),
    );
    let frame = vec![0, 0, 0, 5, 4, 0, 0, 0, 7];
    assert_eq!(
        PeerWireProtocolMessage::parse_bytes(Bytes::from(frame.clone()), &greedy),
        Ok(PeerWireProtocolMessage::Have(HaveMessage::new(7)))
    );
    assert_eq!(
        PeerWireProtocolMessage::parse_bytes(Bytes::from(frame), &None),
        Ok(PeerWireProtocolMessage::Have(HaveMessage::new(7)))
    );
    let as_long_as_a_port = vec![0, 0, 0, 3, 5, 0x1a, 0xe1];
    assert_eq!(
        PeerWireProtocolMessage::parse_bytes(Bytes::from(as_long_as_a_port), &greedy),
        Ok(PeerWireProtocolMessage::BitField(
            BitFieldMessage::new(Bytes::from(vec![0x1a, 0xe1])).unwrap()
        ))
    );
}

#[test]
fn malformed_core_frame_does_not_fall_to_a_later_tier() {
    let frame = vec![0, 0, 0, 9, 7, 20, 1, 2];
    assert_eq!(
        PeerWireProtocolMessage::parse_bytes(Bytes::from(frame), &table()),
        Err(MessageError::Malformed)
    );
}

#[test]
fn parse_message_agrees_with_parse_bytes() {
    let frame = vec![0, 0, 0, 13, 6, 0, 0, 0, 1, 0, 0, 0, 0, 0, 0, 0, 4];
    assert_eq!(
        parse_message(Bytes::from(frame.clone()), &None),
        PeerWireProtocolMessage::parse_bytes(Bytes::from(frame), &None)
    );
    assert_eq!(parse_message(Bytes::new(), &None), Err(MessageError::Malformed));
}

#[test]
fn length_prefix_reads_as_a_host_size() {
    assert_eq!(parse_message_length(&[0, 0, 1, 0]), Ok(256));
    assert_eq!(parse_message_length(&[0, 0, 0, 5, 4, 0, 0, 0, 7]), Ok(5));
    assert_eq!(parse_message_length(&[1, 0, 0, 0]), Ok(16777216));
}

#[test]
fn big_endian_numbers_read_and_write() {
    let mut out = vec![0xaa];
    write_u32(&mut out, 0x0102_0304);
    write_u16(&mut out, 0x0506);
    write_all(&mut out, &[7, 8]);
    assert_eq!(out, vec![0xaa, 1, 2, 3, 4, 5, 6, 7, 8]);
    assert_eq!(read_u32(&out, 1), Some(0x0102_0304));
    assert_eq!(read_u32(&out, 5), Some(0x0506_0708));
    assert_eq!(read_u32(&out, 6), None);
    assert_eq!(read_u32(&out, 100), None);
    assert_eq!(read_u16(&out, 5), Some(0x0506));
    assert_eq!(read_u16(&out, 7), Some(0x0708));
    assert_eq!(read_u16(&out, 8), None);
    assert_eq!(read_u8(&out, 0), Some(0xaa));
    assert_eq!(read_u8(&out, 8), Some(8));
    assert_eq!(read_u8(&out, 9), None);
    let mut top = Vec::new();
    write_u32(&mut top, u32::MAX);
    write_u32(&mut top, 0x8000_0000);
    assert_eq!(top, vec![255, 255, 255, 255, 128, 0, 0, 0]);
    assert_eq!(read_u32(&top, 0), Some(u32::MAX));
    assert_eq!(read_u32(&top, 4), Some(0x8000_0000));
}

#[test]
fn length_and_id_pair_is_written_with_or_without_id() {
    let mut out = Vec::new();
    write_length_id_pair(&mut out, 258, None);
    assert_eq!(out, vec![0, 0, 1, 2]);
    write_length_id_pair(&mut out, 1, Some(3));
    assert_eq!(out, vec![0, 0, 1, 2, 0, 0, 0, 1, 3]);
}

#[test]
fn width_conversions_are_guarded() {
    assert_eq!(u32_to_usize(0), Ok(0));
    assert_eq!(u32_to_usize(70000), Ok(70000));
    assert_eq!(usize_to_u32(0), Ok(0));
    assert_eq!(usize_to_u32(70000), Ok(70000));
    assert_eq!(usize_to_u32(u32::MAX as usize), Ok(u32::MAX));
    if usize::MAX as u64 > u32::MAX as u64 {
        assert_eq!(u32_to_usize(u32::MAX), Ok(u32::MAX as usize));
        assert_eq!(
            usize_to_u32(u32::MAX as usize + 1),
            Err(MessageError::LengthOutOfRange)
        );
        assert_eq!(usize_to_u32(usize::MAX), Err(MessageError::LengthOutOfRange));
    }
}

#[test]
fn frames_are_bounded_by_the_length_prefix() {
    assert!(fits_frame(1, 0));
    assert!(fits_frame(9, 16384));
    assert!(fits_frame(0, u32::MAX as usize - 4) || usize::MAX as u64 == u32::MAX as u64);
    if usize::MAX as u64 > u32::MAX as u64 {
        assert!(fits_frame(9, u32::MAX as usize - 9));
        assert!(!fits_frame(9, u32::MAX as usize - 8));
        assert!(!fits_frame(u32::MAX, 1));
        assert!(fits_frame(u32::MAX, 0));
        assert!(!fits_frame(2, usize::MAX));
    }
}

#[test]
fn decimal_numbers_read_and_write() {
    for (n, text) in [
        (0u32, "0"),
        (7, "7"),
        (10, "10"),
        (4096, "4096"),
        (4294967295, "4294967295"),
    ] {
        let mut out = vec![b'i'];
        write_decimal(&mut out, n);
        assert_eq!(&out[1..], text.as_bytes());
        assert_eq!(decimal_len(n), text.len());
        out.push(b'e');
        assert_eq!(read_decimal(&out, 1), Some((n, 1 + text.len())));
    }
}

#[test]
fn decimal_reader_refuses_what_is_no_canonical_number() {
    assert_eq!(read_decimal(b"", 0), None);
    assert_eq!(read_decimal(b"e", 0), None);
    assert_eq!(read_decimal(b"12", 2), None);
    assert_eq!(read_decimal(b"12", 3), None);
    assert_eq!(read_decimal(b"007e", 0), None);
    assert_eq!(read_decimal(b"00", 0), None);
    assert_eq!(read_decimal(b"-1e", 0), None);
    assert_eq!(read_decimal(b"4294967296e", 0), None);
    assert_eq!(read_decimal(b"99999999999999999999999999e", 0), None);
    assert_eq!(read_decimal(b"0e", 0), Some((0, 1)));
    assert_eq!(read_decimal(b"12", 0), Some((12, 2)));
    assert_eq!(read_decimal(b"x12y", 1), Some((12, 3)));
    assert_eq!(read_decimal(b"107", 1), None);
    assert_eq!(read_decimal(b"170", 1), Some((70, 3)));
}

#[test]
fn text_is_matched_in_place() {
    assert!(starts_with_at(b"d8:msg_type", 0, b"d8:"));
    assert!(starts_with_at(b"d8:msg_type", 3, b"msg_type"));
    assert!(starts_with_at(b"abc", 3, b""));
    assert!(!starts_with_at(b"abc", 4, b""));
    assert!(!starts_with_at(b"abc", 1, b"bcd"));
    assert!(!starts_with_at(b"abc", 0, b"abd"));
}

#[test]
fn decoded_frames_are_written_as_they_came() {
    let frames: Vec<Vec<u8>> = vec![
        vec![0, 0, 0, 0],
        vec![0, 0, 0, 1, 2],
        vec![0, 0, 0, 5, 4, 0, 0, 1, 0],
        vec![0, 0, 0, 3, 5, 0xf0, 0x0f],
        vec![0, 0, 0, 13, 6, 0, 0, 0, 1, 0, 0, 0, 2, 0, 0, 0, 3],
        vec![0, 0, 0, 11, 7, 0, 0, 0, 1, 0, 0, 0, 2, 0xab, 0xcd],
        vec![0, 0, 0, 13, 8, 0, 0, 0, 1, 0, 0, 0, 2, 0, 0, 0, 3],
        vec![0, 0, 0, 3, 9, 0x1a, 0xe1],
        vec![0, 0, 0, 4, 20, 77, 1, 2],
        {
            let mut frame = vec![0, 0, 0, 27, 20, 3];
            frame.extend_from_slice(b"d8:msg_typei2e5:piecei7ee");
            frame
        },
    ];
    for frame in frames {
        let message =
            PeerWireProtocolMessage::parse_bytes(Bytes::from(frame.clone()), &table()).unwrap();
        let mut written = Vec::new();
        message.write_bytes(&mut written, &table()).unwrap();
        assert_eq!(written, frame);
    }
    let tolerated = PeerWireProtocolMessage::parse_bytes(Bytes::from(vec![0u8; 5]), &None).unwrap();
    let mut written = Vec::new();
    tolerated.write_bytes(&mut written, &None).unwrap();
    assert_eq!(written, vec![0, 0, 0, 0]);
}

#[test]
fn clones_are_equal_to_what_they_were_made_of() {
    for message in samples() {
        assert_eq!(message.clone(), message);
    }
}
