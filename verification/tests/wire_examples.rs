use bytes::Bytes;
use peer_wire::error::MessageError;
use peer_wire::message::PeerWireProtocolMessage;
use peer_wire::standard::{BitFieldMessage, HaveMessage, RequestMessage};

fn decode(bytes: &[u8]) -> Result<PeerWireProtocolMessage, MessageError> {
    PeerWireProtocolMessage::parse_bytes(Bytes::from(bytes.to_vec()), &None)
}

fn encode(message: &PeerWireProtocolMessage) -> Vec<u8> {
    let mut out = Vec::new();
    message.write_bytes(&mut out, &None).unwrap();
    out
}

#[test]
fn four_zero_bytes_are_a_keep_alive() {
    assert_eq!(decode(&[0, 0, 0, 0]), Ok(PeerWireProtocolMessage::KeepAlive));
    assert_eq!(PeerWireProtocolMessage::KeepAlive.message_size(), 4);
}

#[test]
fn have_decodes_and_encodes_to_the_same_bytes() {
    let frame = [0, 0, 0, 5, 4, 0, 0, 0, 7];
    let message = decode(&frame).unwrap();
    assert_eq!(message, PeerWireProtocolMessage::Have(HaveMessage::new(7)));
    assert_eq!(encode(&message), frame.to_vec());
}

#[test]
fn request_decodes_to_its_three_numbers() {
    let frame = [0, 0, 0, 13, 6, 0, 0, 0, 1, 0, 0, 0, 0, 0, 0, 0, 4];
    assert_eq!(
        decode(&frame),
        Ok(PeerWireProtocolMessage::Request(RequestMessage::new(1, 0, 4)))
    );
}

#[test]
fn bitfield_reports_first_and_last_of_sixteen_pieces() {
    let bitfield = BitFieldMessage::new(Bytes::from(vec![0b1000_0000u8, 0b0000_0001u8])).unwrap();
    for piece in 0..16u32 {
        assert_eq!(bitfield.has_piece(piece), piece == 0 || piece == 15);
    }
    assert!(!bitfield.has_piece(16));
}

#[test]
fn two_bytes_are_not_enough_to_size_a_frame() {
    let frame = [0, 0, 0, 13, 6, 0, 0, 0, 1, 0, 0, 0, 0, 0, 0, 0, 4];
    assert_eq!(PeerWireProtocolMessage::bytes_needed(&frame[..2]), Ok(None));
    assert_eq!(PeerWireProtocolMessage::bytes_needed(&frame[..4]), Ok(Some(17)));
}
