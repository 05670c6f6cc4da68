use bytes::Bytes;
use peer_wire::{
    BitsExtensionMessage, ExtendedMessage, ExtendedMessageBuilder, ExtendedType, MessageError,
    PeerExtensionProtocolMessage, PeerWireProtocolMessage, PortMessage, UnrecognizedMessage,
    UtMetadataDataMessage, UtMetadataMessage, UtMetadataRejectMessage, UtMetadataRequestMessage,
};

fn table(id: u8) -> Option<ExtendedMessage> {
    Some(
        ExtendedMessageBuilder::new()
            .with_extended_type(ExtendedType::UtMetadata, Some(id))
            .with_metadata_size(Some(31235))
            .build(),
    )
}

fn decode(
    bytes: &[u8],
    extended: &Option<ExtendedMessage>,
) -> Result<PeerWireProtocolMessage, MessageError> {
    PeerWireProtocolMessage::parse_bytes(Bytes::from(bytes.to_vec()), extended)
}

fn encode(message: &PeerWireProtocolMessage, extended: &Option<ExtendedMessage>) -> Vec<u8> {
    let mut out = Vec::new();
    message.write_bytes(&mut out, extended).unwrap();
    out
}

fn framed(id: u8, payload: &[u8]) -> Vec<u8> {
    let mut frame = vec![0, 0, 0, (payload.len() + 2) as u8, 20, id];
    frame.extend_from_slice(payload);
    frame
}

fn metadata(message: UtMetadataMessage) -> PeerWireProtocolMessage {
    PeerWireProtocolMessage::ProtExtension(PeerExtensionProtocolMessage::UtMetadata(message))
}

#[test]
fn port_frame_carries_a_big_endian_port() {
    let message = PeerWireProtocolMessage::BitsExtension(BitsExtensionMessage::Port(
        PortMessage::new(0x1ae1),
    ));
    let frame = vec![0, 0, 0, 3, 9, 0x1a, 0xe1];
    assert_eq!(encode(&message, &None), frame);
    assert_eq!(message.message_size(), 7);
    assert_eq!(decode(&frame, &None), Ok(message));
    assert_eq!(PortMessage::new(6881).listen_port(), 6881);
}

#[test]
fn port_payload_must_be_two_bytes() {
    assert_eq!(decode(&[0, 0, 0, 3, 9, 0x1a], &None), Err(MessageError::Malformed));
    assert_eq!(decode(&[0, 0, 0, 3, 9, 0x1a, 0xe1, 0], &None), Err(MessageError::Malformed));
    assert_eq!(
        PortMessage::parse_bytes(Bytes::from(vec![1, 2])),
        Ok(PortMessage::new(258))
    );
    assert_eq!(
        PortMessage::parse_bytes(Bytes::from(vec![1])),
        Err(MessageError::Malformed)
    );
}

#[test]
fn port_tier_passes_on_other_headers() {
    assert_eq!(
        BitsExtensionMessage::parse_bytes(Bytes::from(vec![0, 0, 0, 3, 9, 0, 80])),
        Some(Ok(BitsExtensionMessage::Port(PortMessage::new(80))))
    );
    assert_eq!(
        BitsExtensionMessage::parse_bytes(Bytes::from(vec![0, 0, 0, 3, 9, 0])),
        Some(Err(MessageError::Malformed))
    );
    assert_eq!(
        BitsExtensionMessage::parse_bytes(Bytes::from(vec![0, 0, 0, 4, 9, 0, 80, 0])),
        None
    );
    assert_eq!(BitsExtensionMessage::parse_bytes(Bytes::from(vec![0, 0, 0, 3])), None);
    assert_eq!(BitsExtensionMessage::parse_bytes(Bytes::from(vec![0, 0, 0, 5, 4, 0, 0, 0, 7])), None);
}

#[test]
fn table_answers_in_both_directions() {
    let table = table(3).unwrap();
    assert_eq!(table.query_id(ExtendedType::UtMetadata), Some(3));
    assert_eq!(table.query_type(3), Some(ExtendedType::UtMetadata));
    assert_eq!(table.query_type(4), None);
    assert_eq!(table.metadata_size(), Some(31235));
}

#[test]
fn empty_builder_gives_an_empty_table() {
    let table = ExtendedMessageBuilder::new().build();
    assert_eq!(table.query_id(ExtendedType::UtMetadata), None);
    assert_eq!(table.query_type(0), None);
    assert_eq!(table.metadata_size(), None);
}

#[test]
fn builder_can_take_an_extension_out_again() {
    let table = ExtendedMessageBuilder::new()
        .with_extended_type(ExtendedType::UtMetadata, Some(1))
        .with_extended_type(ExtendedType::UtMetadata, None)
        .with_metadata_size(Some(5))
        .with_metadata_size(None)
        .build();
    assert_eq!(table.query_id(ExtendedType::UtMetadata), None);
    assert_eq!(table.metadata_size(), None);
}

#[test]
fn metadata_request_is_a_dictionary_of_type_and_piece() {
    let message = metadata(UtMetadataMessage::Request(UtMetadataRequestMessage::new(3)));
    let frame = framed(2, b"d8:msg_typei0e5:piecei3ee");
    assert_eq!(encode(&message, &table(2)), frame);
    assert_eq!(message.message_size(), frame.len());
    assert_eq!(decode(&frame, &table(2)), Ok(message));
}

#[test]
fn metadata_reject_is_a_dictionary_of_type_and_piece() {
    let message = metadata(UtMetadataMessage::Reject(UtMetadataRejectMessage::new(120)));
    let frame = framed(7, b"d8:msg_typei2e5:piecei120ee");
    assert_eq!(encode(&message, &table(7)), frame);
    assert_eq!(message.message_size(), frame.len());
    assert_eq!(decode(&frame, &table(7)), Ok(message));
}

#[test]
fn metadata_data_declares_the_length_of_its_block() {
    let data = UtMetadataDataMessage::new(1, Bytes::from(vec![0xaa, 0xbb, 0xcc])).unwrap();
    assert_eq!(data.piece(), 1);
    assert_eq!(data.total_size(), 3);
    assert_eq!(&data.data()[..], &[0xaau8, 0xbb, 0xcc][..]);
    let message = metadata(UtMetadataMessage::Data(data));
    let mut payload = b"d8:msg_typei1e5:piecei1e10:total_sizei3ee".to_vec();
    payload.extend_from_slice(&[0xaa, 0xbb, 0xcc]);
    let frame = framed(1, &payload);
    assert_eq!(frame.len(), 50);
    assert_eq!(encode(&message, &table(1)), frame);
    assert_eq!(message.message_size(), 50);
    assert_eq!(decode(&frame, &table(1)), Ok(message));
}

#[test]
fn metadata_data_with_a_block_of_digits_is_delimited_by_its_size() {
    let block = b"12e345".to_vec();
    let data = UtMetadataDataMessage::new(4294967295, Bytes::from(block.clone())).unwrap();
    let message = metadata(UtMetadataMessage::Data(data));
    let mut payload = b"d8:msg_typei1e5:piecei4294967295e10:total_sizei6ee".to_vec();
    payload.extend_from_slice(&block);
    let frame = framed(9, &payload);
    assert_eq!(encode(&message, &table(9)), frame);
    assert_eq!(decode(&frame, &table(9)), Ok(message));
}

#[test]
fn metadata_data_with_an_empty_block_round_trips() {
    let data = UtMetadataDataMessage::new(0, Bytes::new()).unwrap();
    let message = metadata(UtMetadataMessage::Data(data));
    let frame = framed(1, b"d8:msg_typei1e5:piecei0e10:total_sizei0ee");
    assert_eq!(encode(&message, &table(1)), frame);
    assert_eq!(decode(&frame, &table(1)), Ok(message));
}

#[test]
fn metadata_data_whose_block_is_not_as_long_as_declared_is_malformed() {
    let mut short = b"d8:msg_typei1e5:piecei1e10:total_sizei4ee".to_vec();
    short.extend_from_slice(&[1, 2, 3]);
    assert_eq!(decode(&framed(1, &short), &table(1)), Err(MessageError::Malformed));
    let mut long = b"d8:msg_typei1e5:piecei1e10:total_sizei2ee".to_vec();
    long.extend_from_slice(&[1, 2, 3]);
    assert_eq!(decode(&framed(1, &long), &table(1)), Err(MessageError::Malformed));
}

#[test]
fn metadata_payloads_outside_the_dictionary_form_are_malformed() {
    let cases: [&[u8]; 12] = [
        b"",
        b"d",
        b"d8:msg_typei0e5:piecei3e",
        b"d8:msg_typei0e5:piecei3eee",
        b"d8:msg_typei3e5:piecei3ee",
        b"d8:msg_typei0e5:pieceiee",
        b"d8:msg_typei0e5:piecei03ee",
        b"d8:msg_typei0e5:piecei-3ee",
        b"d8:msg_typei0e5:piecei4294967296ee",
        b"d5:piecei3e8:msg_typei0ee",
        b"d8:msg_typei1e5:piecei3ee",
        b"d8:msg_typei1e5:piecei3e10:total_sizei00ee",
    ];
    for payload in cases.iter() {
        assert_eq!(
            UtMetadataMessage::parse_bytes(Bytes::from(payload.to_vec())),
            Err(MessageError::Malformed)
        );
        assert_eq!(decode(&framed(1, payload), &table(1)), Err(MessageError::Malformed));
    }
}

#[test]
fn metadata_piece_numbers_use_up_to_ten_digits() {
    for piece in [0u32, 9, 10, 99, 100, 65535, 1000000000, 4294967295] {
        let request = UtMetadataMessage::Request(UtMetadataRequestMessage::new(piece));
        let mut out = Vec::new();
        request.write_bytes(&mut out);
        let text = format!("d8:msg_typei0e5:piecei{}ee", piece);
        assert_eq!(out, text.as_bytes().to_vec());
        assert_eq!(request.message_size(), text.len());
        assert_eq!(UtMetadataMessage::parse_bytes(Bytes::from(out)), Ok(request));
    }
}

#[test]
fn metadata_message_without_a_negotiated_id_cannot_be_written() {
    let message = metadata(UtMetadataMessage::Request(UtMetadataRequestMessage::new(3)));
    let mut out = vec![1, 2, 3];
    assert_eq!(message.write_bytes(&mut out, &None), Err(MessageError::UnresolvedExtension));
    assert_eq!(out, vec![1, 2, 3]);
    let empty = Some(ExtendedMessageBuilder::new().build());
    assert_eq!(message.write_bytes(&mut out, &empty), Err(MessageError::UnresolvedExtension));
    assert_eq!(out, vec![1, 2, 3]);
}

#[test]
fn extension_under_an_unknown_id_is_kept_as_it_came() {
    let frame = framed(5, b"anything");
    let expected = PeerWireProtocolMessage::ProtExtension(PeerExtensionProtocolMessage::Unrecognized(
        UnrecognizedMessage::new(5, Bytes::from(b"anything".to_vec())).unwrap(),
    ));
    assert_eq!(decode(&frame, &table(1)), Ok(expected.clone()));
    assert_eq!(decode(&frame, &None), Ok(expected.clone()));
    assert_eq!(encode(&expected, &None), frame);
    assert_eq!(encode(&expected, &table(1)), frame);
    assert_eq!(expected.message_size(), frame.len());
}

#[test]
fn metadata_frame_without_a_table_is_kept_as_it_came() {
    let frame = framed(2, b"d8:msg_typei0e5:piecei3ee");
    match decode(&frame, &None) {
        Ok(PeerWireProtocolMessage::ProtExtension(PeerExtensionProtocolMessage::Unrecognized(
            message,
        ))) => {
            assert_eq!(message.id(), 2);
            assert_eq!(&message.payload()[..], &b"d8:msg_typei0e5:piecei3ee"[..]);
        }
        other => panic!("unexpected {:?}", other),
    }
}

#[test]
fn extension_frame_with_an_empty_payload_is_kept() {
    let frame = vec![0, 0, 0, 2, 20, 0];
    let expected = PeerWireProtocolMessage::ProtExtension(PeerExtensionProtocolMessage::Unrecognized(
        UnrecognizedMessage::new(0, Bytes::new()).unwrap(),
    ));
    assert_eq!(decode(&frame, &None), Ok(expected));
}

#[test]
fn extension_frame_without_room_for_an_id_is_malformed() {
    assert_eq!(decode(&[0, 0, 0, 1, 20], &None), Err(MessageError::Malformed));
    assert_eq!(decode(&[0, 0, 0, 3, 20, 1], &None), Err(MessageError::Malformed));
    assert_eq!(decode(&[0, 0, 0, 2, 20, 1, 0], &None), Err(MessageError::Malformed));
}

#[test]
fn extension_tier_passes_on_other_ids() {
    assert_eq!(
        PeerExtensionProtocolMessage::parse_bytes(Bytes::from(vec![0, 0, 0, 2, 21, 1]), &None),
        None
    );
    assert_eq!(
        PeerExtensionProtocolMessage::parse_bytes(Bytes::from(vec![0, 0, 0, 2]), &None),
        None
    );
}

#[test]
fn unrecognized_clone_holds_the_same_payload() {
    let message = UnrecognizedMessage::new(5, Bytes::from(vec![1, 2, 3])).unwrap();
    assert_eq!(message.clone(), message);
    let data = UtMetadataDataMessage::new(5, Bytes::from(vec![1, 2, 3])).unwrap();
    assert_eq!(data.clone(), data);
}
