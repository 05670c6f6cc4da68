use bytes::Bytes;
use peer_wire::{
    BitFieldMessage, CancelMessage, HaveMessage, MessageError, PeerWireProtocolMessage,
    PieceMessage, RequestMessage,
};

fn decode(bytes: &[u8]) -> Result<PeerWireProtocolMessage, MessageError> {
    PeerWireProtocolMessage::parse_bytes(Bytes::from(bytes.to_vec()), &None)
}

fn encode(message: &PeerWireProtocolMessage) -> Vec<u8> {
    let mut out = Vec::new();
    message.write_bytes(&mut out, &None).unwrap();
    out
}

#[test]
fn control_messages_have_their_table_frames() {
    assert_eq!(encode(&PeerWireProtocolMessage::KeepAlive), vec![0, 0, 0, 0]);
    assert_eq!(encode(&PeerWireProtocolMessage::Choke), vec![0, 0, 0, 1, 0]);
    assert_eq!(encode(&PeerWireProtocolMessage::UnChoke), vec![0, 0, 0, 1, 1]);
    assert_eq!(encode(&PeerWireProtocolMessage::Interested), vec![0, 0, 0, 1, 2]);
    assert_eq!(encode(&PeerWireProtocolMessage::UnInterested), vec![0, 0, 0, 1, 3]);
}

#[test]
fn control_messages_decode_from_their_table_frames() {
    assert_eq!(decode(&[0, 0, 0, 1, 0]), Ok(PeerWireProtocolMessage::Choke));
    assert_eq!(decode(&[0, 0, 0, 1, 1]), Ok(PeerWireProtocolMessage::UnChoke));
    assert_eq!(decode(&[0, 0, 0, 1, 2]), Ok(PeerWireProtocolMessage::Interested));
    assert_eq!(decode(&[0, 0, 0, 1, 3]), Ok(PeerWireProtocolMessage::UnInterested));
}

#[test]
fn keep_alive_is_made_and_recognised() {
    let message = PeerWireProtocolMessage::keep_alive();
    assert_eq!(message, PeerWireProtocolMessage::KeepAlive);
    assert!(message.is_keep_alive());
    assert!(!PeerWireProtocolMessage::Choke.is_keep_alive());
    assert!(!PeerWireProtocolMessage::Have(HaveMessage::new(0)).is_keep_alive());
}

#[test]
fn keep_alive_with_a_zero_id_byte_is_tolerated_but_never_written() {
    assert_eq!(decode(&[0, 0, 0, 0, 0]), Ok(PeerWireProtocolMessage::KeepAlive));
    assert_eq!(encode(&PeerWireProtocolMessage::KeepAlive).len(), 4);
}

#[test]
fn zero_length_with_another_id_is_malformed() {
    assert_eq!(decode(&[0, 0, 0, 0, 7]), Err(MessageError::Malformed));
    assert_eq!(decode(&[0, 0, 0, 0, 5]), Err(MessageError::Malformed));
    assert_eq!(decode(&[0, 0, 0, 0, 1]), Err(MessageError::Malformed));
    assert_eq!(decode(&[0, 0, 0, 0, 0, 0]), Err(MessageError::Malformed));
}

#[test]
fn have_carries_a_big_endian_piece_index() {
    let message = PeerWireProtocolMessage::Have(HaveMessage::new(0x0102_0304));
    assert_eq!(encode(&message), vec![0, 0, 0, 5, 4, 1, 2, 3, 4]);
    assert_eq!(decode(&[0, 0, 0, 5, 4, 1, 2, 3, 4]), Ok(message));
    assert_eq!(HaveMessage::new(9).piece_index(), 9);
}

#[test]
fn have_payload_must_be_four_bytes() {
    assert_eq!(
        HaveMessage::parse_bytes(Bytes::from(vec![0, 0, 1, 0])),
        Ok(HaveMessage::new(256))
    );
    assert_eq!(
        HaveMessage::parse_bytes(Bytes::from(vec![0, 0, 1])),
        Err(MessageError::Malformed)
    );
    assert_eq!(
        HaveMessage::parse_bytes(Bytes::from(vec![0, 0, 1, 0, 0])),
        Err(MessageError::Malformed)
    );
}

#[test]
fn have_with_another_length_matches_no_message() {
    assert_eq!(decode(&[0, 0, 0, 6, 4, 0, 0, 0, 7, 0]), Err(MessageError::Malformed));
    assert_eq!(decode(&[0, 0, 0, 4, 4, 0, 0, 0]), Err(MessageError::Malformed));
}

#[test]
fn truncated_have_is_malformed() {
    assert_eq!(decode(&[0, 0, 0, 5, 4, 0, 0, 0]), Err(MessageError::Malformed));
}

#[test]
fn bytes_behind_a_frame_are_refused() {
    assert_eq!(decode(&[0, 0, 0, 5, 4, 0, 0, 0, 7, 0]), Err(MessageError::Malformed));
    assert_eq!(decode(&[0, 0, 0, 1, 0, 0]), Err(MessageError::Malformed));
}

#[test]
fn fewer_than_four_bytes_are_malformed() {
    assert_eq!(decode(&[]), Err(MessageError::Malformed));
    assert_eq!(decode(&[0, 0, 0]), Err(MessageError::Malformed));
}

#[test]
fn unknown_id_is_malformed() {
    assert_eq!(decode(&[0, 0, 0, 1, 10]), Err(MessageError::Malformed));
    assert_eq!(decode(&[0, 0, 0, 2, 4, 0]), Err(MessageError::Malformed));
}

#[test]
fn bitfield_frame_counts_its_bytes() {
    let bitfield = BitFieldMessage::new(Bytes::from(vec![0xff, 0x00, 0x81])).unwrap();
    let message = PeerWireProtocolMessage::BitField(bitfield);
    assert_eq!(encode(&message), vec![0, 0, 0, 4, 5, 0xff, 0x00, 0x81]);
    assert_eq!(message.message_size(), 8);
    assert_eq!(decode(&[0, 0, 0, 4, 5, 0xff, 0x00, 0x81]), Ok(message));
}

#[test]
fn empty_bitfield_is_a_frame_of_one() {
    let bitfield = BitFieldMessage::new(Bytes::new()).unwrap();
    assert!(!bitfield.has_piece(0));
    let message = PeerWireProtocolMessage::BitField(bitfield);
    assert_eq!(encode(&message), vec![0, 0, 0, 1, 5]);
    assert_eq!(decode(&[0, 0, 0, 1, 5]), Ok(message));
}

#[test]
fn bitfield_shorter_than_declared_is_malformed() {
    assert_eq!(decode(&[0, 0, 0, 4, 5, 0xff, 0x00]), Err(MessageError::Malformed));
}

#[test]
fn bitfield_bits_count_from_the_most_significant() {
    let bitfield = BitFieldMessage::new(Bytes::from(vec![0b0100_0000u8, 0b0001_0000u8])).unwrap();
    assert!(!bitfield.has_piece(0));
    assert!(bitfield.has_piece(1));
    assert!(!bitfield.has_piece(2));
    assert!(bitfield.has_piece(11));
    assert!(!bitfield.has_piece(12));
    assert!(!bitfield.has_piece(u32::MAX));
    assert_eq!(&bitfield.bitfield()[..], &[0b0100_0000u8, 0b0001_0000u8][..]);
}

#[test]
fn bitfield_clone_holds_the_same_bytes() {
    let bitfield = BitFieldMessage::new(Bytes::from(vec![1, 2, 3])).unwrap();
    assert_eq!(bitfield.clone(), bitfield);
}

#[test]
fn request_frame_is_three_big_endian_numbers() {
    let message = PeerWireProtocolMessage::Request(RequestMessage::new(1, 0x4000, 0x0001_0000));
    let frame = vec![0, 0, 0, 13, 6, 0, 0, 0, 1, 0, 0, 0x40, 0, 0, 1, 0, 0];
    assert_eq!(encode(&message), frame);
    assert_eq!(decode(&frame), Ok(message));
}

#[test]
fn cancel_frame_is_three_big_endian_numbers() {
    let message = PeerWireProtocolMessage::Cancel(CancelMessage::new(2, 3, 4));
    let frame = vec![0, 0, 0, 13, 8, 0, 0, 0, 2, 0, 0, 0, 3, 0, 0, 0, 4];
    assert_eq!(encode(&message), frame);
    assert_eq!(decode(&frame), Ok(message));
}

#[test]
fn request_and_cancel_payloads_must_be_twelve_bytes() {
    assert_eq!(
        RequestMessage::parse_bytes(Bytes::from(vec![0u8; 11])),
        Err(MessageError::Malformed)
    );
    assert_eq!(
        CancelMessage::parse_bytes(Bytes::from(vec![0u8; 13])),
        Err(MessageError::Malformed)
    );
    assert_eq!(
        RequestMessage::parse_bytes(Bytes::from(vec![0, 0, 0, 1, 0, 0, 0, 2, 0, 0, 0, 3])),
        Ok(RequestMessage::new(1, 2, 3))
    );
    assert_eq!(
        CancelMessage::parse_bytes(Bytes::from(vec![0, 0, 0, 1, 0, 0, 0, 2, 0, 0, 0, 3])),
        Ok(CancelMessage::new(1, 2, 3))
    );
}

#[test]
fn request_with_a_wrong_length_matches_no_message() {
    let frame = [0, 0, 0, 12, 6, 0, 0, 0, 1, 0, 0, 0, 0, 0, 0, 0];
    assert_eq!(decode(&frame), Err(MessageError::Malformed));
}

#[test]
fn piece_frame_carries_index_offset_and_block() {
    let piece = PieceMessage::new(5, 16384, Bytes::from(vec![9, 8, 7])).unwrap();
    assert_eq!(piece.piece_index(), 5);
    assert_eq!(piece.block_offset(), 16384);
    assert_eq!(&piece.block()[..], &[9u8, 8, 7][..]);
    let message = PeerWireProtocolMessage::Piece(piece);
    let frame = vec![0, 0, 0, 12, 7, 0, 0, 0, 5, 0, 0, 0x40, 0, 9, 8, 7];
    assert_eq!(encode(&message), frame);
    assert_eq!(message.message_size(), 16);
    assert_eq!(decode(&frame), Ok(message));
}

#[test]
fn piece_with_an_empty_block_is_a_frame_of_nine() {
    let message = PeerWireProtocolMessage::Piece(PieceMessage::new(1, 2, Bytes::new()).unwrap());
    let frame = vec![0, 0, 0, 9, 7, 0, 0, 0, 1, 0, 0, 0, 2];
    assert_eq!(encode(&message), frame);
    assert_eq!(decode(&frame), Ok(message));
}

#[test]
fn piece_without_room_for_index_and_offset_is_malformed() {
    assert_eq!(decode(&[0, 0, 0, 8, 7, 0, 0, 0, 1, 0, 0, 0]), Err(MessageError::Malformed));
    assert_eq!(
        PieceMessage::parse_bytes(Bytes::from(vec![0u8; 7])),
        Err(MessageError::Malformed)
    );
}

#[test]
fn piece_clone_holds_the_same_block() {
    let piece = PieceMessage::new(5, 6, Bytes::from(vec![1, 2, 3, 4])).unwrap();
    assert_eq!(piece.clone(), piece);
}
