//! What holds of decoding, encoding and sizing together.

use crate::bencode::{
    decimal, has_text_at, lemma_decimal_len_u32, lemma_decimal_reads_back,
    lemma_read_decimal_is_decimal, lemma_read_decimal_of_decimal, spec_read_decimal,
};
use crate::bits_ext::{resolve_type, BitsExtensionMessage, ExtendedMessage};
use crate::error::MessageError;
use crate::message::{
    builtin_entry, frame_id, lemma_frame_len, message_fits, spec_bytes_needed, spec_frame,
    spec_message_size, spec_parse, spec_parse_entry, MessageView,
};
use crate::prot_ext::{
    dict_close, dict_open, extension_frame, extension_payload_fits, piece_key, prot_ext_fits,
    prot_ext_id, prot_ext_payload, short_payload, size_key, spec_parse_prot_ext,
    spec_parse_ut_metadata, ut_metadata_fits, ut_metadata_payload, ProtExtView, UnrecognizedView,
    UtMetadataView, DATA_MESSAGE_TYPE, EXTENDED_MESSAGE_ID, REJECT_MESSAGE_TYPE,
    REQUEST_MESSAGE_TYPE,
};
use crate::standard::{
    bitfield_fits, bitfield_frame, block_fits, block_range_bytes, frame_header, piece_frame,
    spec_parse_block_range, spec_parse_piece, CancelMessage, HaveMessage, PieceView,
    RequestMessage,
};
use crate::wire::{
    be_u16_bytes, be_u32_bytes, be_u32_value, lemma_be_u16_bytes_of_value,
    lemma_be_u16_value_of_bytes, lemma_be_u32_bytes_of_value, lemma_be_u32_value_of_bytes,
};
use vstd::prelude::*;

verus! {

/// A frame that opens with the bytes of a length prefix carries that length.
proof fn lemma_prefix_value(length: u32, rest: Seq<u8>)
    ensures
        be_u32_value(be_u32_bytes(length) + rest) == length,
{
    lemma_be_u32_value_of_bytes(length);
    let frame = be_u32_bytes(length) + rest;
    assert(frame[0] == be_u32_bytes(length)[0]);
    assert(frame[1] == be_u32_bytes(length)[1]);
    assert(frame[2] == be_u32_bytes(length)[2]);
    assert(frame[3] == be_u32_bytes(length)[3]);
}

/// Decoding the payload of a metadata message gives the message back.
pub proof fn lemma_ut_metadata_round_trip(message: UtMetadataView)
    requires
        ut_metadata_fits(message),
    ensures
        spec_parse_ut_metadata(ut_metadata_payload(message)) == Ok::<UtMetadataView, MessageError>(
            message,
        ),
{
    let payload = ut_metadata_payload(message);
    match message {
        UtMetadataView::Request(m) => {
            lemma_short_payload_reads_back(REQUEST_MESSAGE_TYPE, m.piece);
        },
        UtMetadataView::Reject(m) => {
            lemma_short_payload_reads_back(REJECT_MESSAGE_TYPE, m.piece);
        },
        UtMetadataView::Data(m) => {
            let digits = decimal(m.piece as nat);
            let size = m.data.len() as u32;
            let size_digits = decimal(m.data.len());
            let end: int = 22 + digits.len() as int;
            let size_at: int = end + 15;
            let size_end: int = size_at + size_digits.len();
            lemma_decimal_reads_back(m.piece as nat);
            lemma_decimal_reads_back(m.data.len());
            assert(payload.len() == size_end + 2 + m.data.len());
            assert(payload.subrange(0, 12) =~= dict_open());
            assert(payload.subrange(13, 22) =~= piece_key());
            assert(payload[12] == DATA_MESSAGE_TYPE);
            assert(payload.subrange(22, end) =~= digits);
            assert(payload[end] == size_key()[0]);
            lemma_read_decimal_of_decimal(payload, 22, m.piece);
            assert(payload.subrange(end, end + 15) =~= size_key());
            assert(payload.subrange(size_at, size_end) =~= size_digits);
            assert(payload[size_end] == dict_close()[0]);
            lemma_read_decimal_of_decimal(payload, size_at, size);
            assert(payload.subrange(size_end, size_end + 2) =~= dict_close());
            assert(payload.subrange(size_end + 2, payload.len() as int) =~= m.data);
        },
    }
}

/// A dictionary of message type and piece is read back as what it says.
proof fn lemma_short_payload_reads_back(msg_type: u8, piece: u32)
    ensures
        ({
            let payload = short_payload(msg_type, piece);
            let end: int = 22 + decimal(piece as nat).len() as int;
            &&& has_text_at(payload, 0, dict_open())
            &&& has_text_at(payload, 13, piece_key())
            &&& payload[12] == msg_type
            &&& spec_read_decimal(payload, 22) == Some((piece, end))
            &&& has_text_at(payload, end, dict_close())
            &&& payload.len() == end + 2
        }),
{
    let payload = short_payload(msg_type, piece);
    let digits = decimal(piece as nat);
    let end: int = 22 + digits.len() as int;
    lemma_decimal_reads_back(piece as nat);
    assert(payload.len() == end + 2);
    assert(payload.subrange(0, 12) =~= dict_open());
    assert(payload.subrange(13, 22) =~= piece_key());
    assert(payload.subrange(22, end) =~= digits);
    assert(payload[end] == dict_close()[0]);
    lemma_read_decimal_of_decimal(payload, 22, piece);
    assert(payload.subrange(end, end + 2) =~= dict_close());
}

/// The parts of a frame with an id byte stand where the decoder looks for them.
proof fn lemma_frame_shape(length: u32, id: u8, body: Seq<u8>)
    requires
        length == 1 + body.len(),
    ensures
        ({
            let frame = frame_header(length, id) + body;
            &&& frame.len() == 4 + length
            &&& be_u32_value(frame) == length
            &&& frame_id(frame) == Some(id)
            &&& frame.subrange(5, frame.len() as int) == body
        }),
{
    let frame = frame_header(length, id) + body;
    lemma_prefix_value(length, seq![id] + body);
    assert(frame =~= be_u32_bytes(length) + (seq![id] + body));
    assert(frame.subrange(5, frame.len() as int) =~= body);
}

proof fn lemma_round_trip_plain(message: MessageView, extended: Option<ExtendedMessage>)
    requires
        message is KeepAlive || message is Choke || message is UnChoke || message is Interested
            || message is UnInterested,
    ensures
        spec_parse(spec_frame(message, extended)->Ok_0, extended) == Ok::<
            MessageView,
            MessageError,
        >(message),
{
    let frame = spec_frame(message, extended)->Ok_0;
    match message {
        MessageView::KeepAlive => {
            lemma_prefix_value(0, Seq::<u8>::empty());
            assert(frame =~= be_u32_bytes(0) + Seq::<u8>::empty());
        },
        MessageView::Choke => {
            lemma_frame_shape(1, 0, Seq::<u8>::empty());
            assert(frame =~= frame_header(1, 0) + Seq::<u8>::empty());
        },
        MessageView::UnChoke => {
            lemma_frame_shape(1, 1, Seq::<u8>::empty());
            assert(frame =~= frame_header(1, 1) + Seq::<u8>::empty());
        },
        MessageView::Interested => {
            lemma_frame_shape(1, 2, Seq::<u8>::empty());
            assert(frame =~= frame_header(1, 2) + Seq::<u8>::empty());
        },
        _ => {
            lemma_frame_shape(1, 3, Seq::<u8>::empty());
            assert(frame =~= frame_header(1, 3) + Seq::<u8>::empty());
        },
    }
}

proof fn lemma_round_trip_have(m: HaveMessage, extended: Option<ExtendedMessage>)
    ensures
        spec_parse(m.frame(), extended) == Ok::<MessageView, MessageError>(MessageView::Have(m)),
{
    lemma_frame_shape(5, 4, be_u32_bytes(m.piece_index));
    lemma_be_u32_value_of_bytes(m.piece_index);
}

proof fn lemma_round_trip_bitfield(bits: Seq<u8>, extended: Option<ExtendedMessage>)
    requires
        bitfield_fits(bits),
    ensures
        spec_parse(bitfield_frame(bits), extended) == Ok::<
            MessageView,
            MessageError,
        >(MessageView::BitField(bits)),
{
    lemma_frame_shape((1 + bits.len()) as u32, 5, bits);
}

proof fn lemma_round_trip_request(
    m: RequestMessage,
    extended: Option<ExtendedMessage>,
)
    ensures
        spec_parse(m.frame(), extended) == Ok::<MessageView, MessageError>(MessageView::Request(m)),
{
    let body = block_range_bytes(m.index, m.begin, m.length);
    lemma_frame_shape(13, 6, body);
    lemma_block_range_reads_back(m.index, m.begin, m.length);
}

proof fn lemma_round_trip_cancel(
    m: CancelMessage,
    extended: Option<ExtendedMessage>,
)
    ensures
        spec_parse(m.frame(), extended) == Ok::<MessageView, MessageError>(MessageView::Cancel(m)),
{
    let body = block_range_bytes(m.index, m.begin, m.length);
    lemma_frame_shape(13, 8, body);
    lemma_block_range_reads_back(m.index, m.begin, m.length);
}

proof fn lemma_round_trip_piece(piece: PieceView, extended: Option<ExtendedMessage>)
    requires
        block_fits(piece.block),
    ensures
        spec_parse(piece_frame(piece), extended) == Ok::<
            MessageView,
            MessageError,
        >(MessageView::Piece(piece)),
{
    let body = be_u32_bytes(piece.index) + be_u32_bytes(piece.begin) + piece.block;
    let length = (9 + piece.block.len()) as u32;
    lemma_frame_shape(length, 7, body);
    assert(piece_frame(piece) =~= frame_header(length, 7) + body);
    lemma_be_u32_value_of_bytes(piece.index);
    lemma_be_u32_value_of_bytes(piece.begin);
    assert(body.subrange(0, 4) =~= be_u32_bytes(piece.index));
    assert(body.subrange(4, 8) =~= be_u32_bytes(piece.begin));
    assert(body.subrange(8, body.len() as int) =~= piece.block);
    assert(spec_parse_piece(body) == Ok::<
        PieceView,
        MessageError,
    >(piece));
}

proof fn lemma_round_trip_bits_ext(m: BitsExtensionMessage, extended: Option<ExtendedMessage>)
    ensures
        spec_parse(m.frame(), extended) == Ok::<MessageView, MessageError>(
            MessageView::BitsExtension(m),
        ),
{
    match m {
        BitsExtensionMessage::Port(port) => {
            lemma_frame_shape(3, 9, be_u16_bytes(port.listen_port));
            lemma_be_u16_value_of_bytes(port.listen_port);
        },
    }
}

proof fn lemma_round_trip_prot_ext(inner: ProtExtView, extended: Option<ExtendedMessage>)
    requires
        prot_ext_fits(inner),
        prot_ext_id(inner, extended) is Some,
        inner matches ProtExtView::Unrecognized(message) ==> resolve_type(extended, message.id)
            is None,
    ensures
        spec_parse(
            extension_frame(
                prot_ext_id(inner, extended)->Some_0,
                prot_ext_payload(inner),
            ),
            extended,
        ) == Ok::<MessageView, MessageError>(MessageView::ProtExtension(inner)),
{
    let id = prot_ext_id(inner, extended)->Some_0;
    let payload = prot_ext_payload(inner);
    let frame = extension_frame(id, payload);
    lemma_extension_payload_fits(inner);
    lemma_extension_frame_shape(id, payload);
    match inner {
        ProtExtView::UtMetadata(m) => {
            lemma_ut_metadata_round_trip(m);
        },
        ProtExtView::Unrecognized(_) => {},
    }
    assert(spec_parse_prot_ext(frame, extended) == Some(
        Ok::<ProtExtView, MessageError>(inner),
    ));
}

/// Decoding the frame of a message gives the message back, under the
/// negotiated table that the frame was made with. A message of an unknown
/// extension must carry an id that the table does not know: under a known id
/// the frame belongs to the extension of that id.
pub proof fn lemma_round_trip(message: MessageView, extended: Option<ExtendedMessage>)
    requires
        message_fits(message),
        spec_frame(message, extended) is Ok,
        message matches MessageView::ProtExtension(ProtExtView::Unrecognized(inner))
            ==> resolve_type(extended, inner.id) is None,
    ensures
        spec_parse(spec_frame(message, extended)->Ok_0, extended) == Ok::<
            MessageView,
            MessageError,
        >(message),
{
    match message {
        MessageView::Have(m) => lemma_round_trip_have(m, extended),
        MessageView::BitField(bits) => lemma_round_trip_bitfield(bits, extended),
        MessageView::Request(m) => lemma_round_trip_request(m, extended),
        MessageView::Piece(piece) => lemma_round_trip_piece(piece, extended),
        MessageView::Cancel(m) => lemma_round_trip_cancel(m, extended),
        MessageView::BitsExtension(m) => lemma_round_trip_bits_ext(m, extended),
        MessageView::ProtExtension(inner) => lemma_round_trip_prot_ext(inner, extended),
        _ => lemma_round_trip_plain(message, extended),
    }
}

/// The payload of a request or a cancel is read back as its three numbers.
proof fn lemma_block_range_reads_back(index: u32, begin: u32, length: u32)
    ensures
        spec_parse_block_range(
            block_range_bytes(index, begin, length),
        ) == Ok::<(u32, u32, u32), MessageError>((index, begin, length)),
{
    let payload = block_range_bytes(index, begin, length);
    lemma_be_u32_value_of_bytes(index);
    lemma_be_u32_value_of_bytes(begin);
    lemma_be_u32_value_of_bytes(length);
    assert(payload.subrange(0, 4) =~= be_u32_bytes(index));
    assert(payload.subrange(4, 8) =~= be_u32_bytes(begin));
    assert(payload.subrange(8, 12) =~= be_u32_bytes(length));
}

/// The payload of an extension message that can be framed fits in a frame;
/// that of a metadata request or reject always does.
proof fn lemma_extension_payload_fits(inner: ProtExtView)
    requires
        prot_ext_fits(inner),
    ensures
        extension_payload_fits(prot_ext_payload(inner)),
{
    match inner {
        ProtExtView::UtMetadata(UtMetadataView::Request(m)) => {
            lemma_decimal_len_u32(m.piece);
        },
        ProtExtView::UtMetadata(UtMetadataView::Reject(m)) => {
            lemma_decimal_len_u32(m.piece);
        },
        _ => {},
    }
}

/// The parts of an extension frame stand where the decoder looks for them.
proof fn lemma_extension_frame_shape(id: u8, payload: Seq<u8>)
    requires
        extension_payload_fits(payload),
    ensures
        ({
            let frame = extension_frame(id, payload);
            &&& frame.len() == 6 + payload.len()
            &&& be_u32_value(frame) == 2 + payload.len()
            &&& frame[4] == EXTENDED_MESSAGE_ID
            &&& frame[5] == id
            &&& frame.subrange(6, frame.len() as int) == payload
        }),
{
    let length = (2 + payload.len()) as u32;
    let frame = extension_frame(id, payload);
    let rest = seq![EXTENDED_MESSAGE_ID, id] + payload;
    lemma_prefix_value(length, rest);
    assert(frame =~= be_u32_bytes(length) + rest);
    assert(frame.subrange(6, frame.len() as int) =~= payload);
}

/// Every frame opens with the number of the bytes that follow its first four.
pub proof fn lemma_frame_declares_its_length(message: MessageView, extended: Option<ExtendedMessage>)
    requires
        message_fits(message),
        spec_frame(message, extended) is Ok,
    ensures
        ({
            let frame = spec_frame(message, extended)->Ok_0;
            &&& frame.len() == spec_message_size(message)
            &&& 4 <= frame.len() <= usize::MAX
            &&& be_u32_value(frame) == frame.len() - 4
        }),
{
    let frame = spec_frame(message, extended)->Ok_0;
    lemma_frame_len(message, extended);
    if let MessageView::ProtExtension(inner) = message {
        lemma_extension_payload_fits(inner);
    }
    let length = (spec_message_size(message) - 4) as u32;
    let rest = frame.subrange(4, frame.len() as int);
    assert(frame.subrange(0, 4) =~= be_u32_bytes(length));
    assert(frame =~= be_u32_bytes(length) + rest);
    lemma_prefix_value(length, rest);
}

/// On the first bytes of a frame the sizer answers nothing until four bytes
/// have arrived, and from then on the size of the whole frame.
pub proof fn lemma_bytes_needed_on_prefix(
    message: MessageView,
    extended: Option<ExtendedMessage>,
    arrived: int,
)
    requires
        message_fits(message),
        spec_frame(message, extended) is Ok,
        0 <= arrived <= spec_frame(message, extended)->Ok_0.len(),
    ensures
        spec_bytes_needed(spec_frame(message, extended)->Ok_0.subrange(0, arrived)) == if arrived
            < 4 {
            Ok::<Option<usize>, MessageError>(None)
        } else {
            Ok(Some(spec_message_size(message) as usize))
        },
{
    let frame = spec_frame(message, extended)->Ok_0;
    lemma_frame_declares_its_length(message, extended);
    if arrived >= 4 {
        lemma_bytes_needed_ignores_tail(frame.subrange(0, arrived), frame.subrange(arrived, frame.len() as int));
        assert(frame.subrange(0, arrived) + frame.subrange(arrived, frame.len() as int) =~= frame);
    }
}

/// Once the length prefix has arrived, what the sizer answers does not
/// depend on the bytes behind it.
pub proof fn lemma_bytes_needed_ignores_tail(bytes: Seq<u8>, more: Seq<u8>)
    requires
        bytes.len() >= 4,
    ensures
        spec_bytes_needed(bytes + more) == spec_bytes_needed(bytes),
{
    let longer = bytes + more;
    assert(longer[0] == bytes[0] && longer[1] == bytes[1] && longer[2] == bytes[2] && longer[3]
        == bytes[3]);
}

/// A frame whose length prefix and id stand in the table of the core
/// messages is read by that table alone, whatever the later tiers and the
/// negotiated table would make of it.
pub proof fn lemma_builtin_tier_decides(frame: Seq<u8>, extended: Option<ExtendedMessage>)
    requires
        frame.len() >= 4,
        builtin_entry(be_u32_value(frame), frame_id(frame)),
    ensures
        spec_parse(frame, extended) == spec_parse_entry(frame),
{
}

/// An extension frame under an id that the negotiated table does not know
/// decodes to the catch-all message, which keeps the id and the payload.
pub proof fn lemma_unknown_extension_is_kept(frame: Seq<u8>, extended: Option<ExtendedMessage>)
    requires
        6 <= frame.len() <= usize::MAX,
        frame.len() == 4 + be_u32_value(frame),
        frame[4] == EXTENDED_MESSAGE_ID,
        resolve_type(extended, frame[5]) is None,
    ensures
        spec_parse(frame, extended) == Ok::<MessageView, MessageError>(
            MessageView::ProtExtension(
                ProtExtView::Unrecognized(
                    UnrecognizedView { id: frame[5], payload: frame.subrange(6, frame.len() as int) },
                ),
            ),
        ),
{
}

/// The first five bytes of a frame are its length prefix and its id byte.
proof fn lemma_header_is_written(frame: Seq<u8>)
    requires
        frame.len() >= 5,
    ensures
        frame.subrange(0, 5) == frame_header(be_u32_value(frame), frame[4]),
{
    lemma_be_u32_bytes_of_value(frame);
    assert(frame.subrange(0, 5) =~= frame.subrange(0, 4).push(frame[4]));
}

/// A payload of twelve bytes is its three numbers, written one after another.
proof fn lemma_block_range_is_written(payload: Seq<u8>)
    requires
        payload.len() == 12,
    ensures
        payload == block_range_bytes(
            be_u32_value(payload.subrange(0, 4)),
            be_u32_value(payload.subrange(4, 8)),
            be_u32_value(payload.subrange(8, 12)),
        ),
{
    let first = payload.subrange(0, 4);
    let second = payload.subrange(4, 8);
    let third = payload.subrange(8, 12);
    lemma_be_u32_bytes_of_value(first);
    lemma_be_u32_bytes_of_value(second);
    lemma_be_u32_bytes_of_value(third);
    assert(first.subrange(0, 4) =~= first);
    assert(second.subrange(0, 4) =~= second);
    assert(third.subrange(0, 4) =~= third);
    assert(payload =~= first + second + third);
}

/// An extension payload that decodes as a metadata message is the payload
/// of that message.
pub proof fn lemma_ut_metadata_payload_is_written(payload: Seq<u8>)
    requires
        spec_parse_ut_metadata(payload) is Ok,
    ensures
        ut_metadata_payload(spec_parse_ut_metadata(payload)->Ok_0) == payload,
{
    let message = spec_parse_ut_metadata(payload)->Ok_0;
    lemma_read_decimal_is_decimal(payload, 22);
    let (piece, end) = spec_read_decimal(payload, 22)->Some_0;
    let head = payload.subrange(0, 12).push(payload[12]) + payload.subrange(13, 22)
        + payload.subrange(22, end);
    assert(head =~= payload.subrange(0, end));
    match message {
        UtMetadataView::Data(data) => {
            let size_at = end + 15;
            lemma_read_decimal_is_decimal(payload, size_at);
            let (size, size_end) = spec_read_decimal(payload, size_at)->Some_0;
            assert(payload =~= payload.subrange(0, end) + payload.subrange(end, size_at)
                + payload.subrange(size_at, size_end) + payload.subrange(size_end, size_end + 2)
                + payload.subrange(size_end + 2, payload.len() as int));
        },
        _ => {
            assert(payload =~= payload.subrange(0, end) + payload.subrange(end, end + 2));
        },
    }
}

/// An extension frame that decodes is the frame of its message.
proof fn lemma_extension_frame_is_written(frame: Seq<u8>, extended: Option<ExtendedMessage>)
    requires
        spec_parse_prot_ext(frame, extended) matches Some(Ok(_)),
    ensures
        ({
            let inner = spec_parse_prot_ext(frame, extended)->Some_0->Ok_0;
            &&& prot_ext_id(inner, extended) == Some(frame[5])
            &&& extension_frame(frame[5], prot_ext_payload(inner)) == frame
        }),
{
    let inner = spec_parse_prot_ext(frame, extended)->Some_0->Ok_0;
    let payload = frame.subrange(6, frame.len() as int);
    lemma_header_is_written(frame);
    if let ProtExtView::UtMetadata(_) = inner {
        lemma_ut_metadata_payload_is_written(payload);
    }
    assert(frame =~= frame.subrange(0, 5).push(frame[5]) + payload);
}

/// A frame that the core table reads is the frame of its message, but for
/// the keep-alive that carries a zero id byte.
proof fn lemma_core_frame_is_written(frame: Seq<u8>, extended: Option<ExtendedMessage>)
    requires
        frame.len() >= 4,
        builtin_entry(be_u32_value(frame), frame_id(frame)),
        spec_parse_entry(frame) is Ok,
        frame.len() == 4 + be_u32_value(frame),
    ensures
        spec_frame(spec_parse_entry(frame)->Ok_0, extended) == Ok::<Seq<u8>, MessageError>(frame),
{
    let message = spec_parse_entry(frame)->Ok_0;
    let payload = frame.subrange(5, frame.len() as int);
    if frame.len() == 4 {
        lemma_be_u32_bytes_of_value(frame);
        assert(frame.subrange(0, 4) =~= frame);
    } else {
        lemma_header_is_written(frame);
        assert(frame =~= frame.subrange(0, 5) + payload);
        match message {
            MessageView::Have(_) => {
                lemma_be_u32_bytes_of_value(payload);
                assert(payload.subrange(0, 4) =~= payload);
            },
            MessageView::Request(_) => {
                lemma_block_range_is_written(payload);
            },
            MessageView::Cancel(_) => {
                lemma_block_range_is_written(payload);
            },
            MessageView::Piece(piece) => {
                let first = payload.subrange(0, 4);
                let second = payload.subrange(4, 8);
                lemma_be_u32_bytes_of_value(first);
                lemma_be_u32_bytes_of_value(second);
                assert(first.subrange(0, 4) =~= first);
                assert(second.subrange(0, 4) =~= second);
                assert(payload =~= first + second + piece.block);
                assert(frame =~= frame.subrange(0, 5) + first + second + piece.block);
            },
            MessageView::BitField(_) => {},
            _ => {
                assert(payload =~= Seq::<u8>::empty());
            },
        }
    }
}

/// A frame that decodes is the frame of its message: encoding what was
/// decoded, under the same negotiated table, gives the same bytes again. No
/// two frames stand for one message, but for the keep-alive that carries a
/// zero id byte, which is read and never written.
pub proof fn lemma_decoded_frame_is_written(frame: Seq<u8>, extended: Option<ExtendedMessage>)
    requires
        spec_parse(frame, extended) is Ok,
        frame.len() != 5 || be_u32_value(frame) != 0,
    ensures
        spec_frame(spec_parse(frame, extended)->Ok_0, extended) == Ok::<Seq<u8>, MessageError>(
            frame,
        ),
{
    if frame.len() >= 4 && builtin_entry(be_u32_value(frame), frame_id(frame)) {
        lemma_core_frame_is_written(frame, extended);
    } else if BitsExtensionMessage::spec_parse(frame) is Some {
        let payload = frame.subrange(5, frame.len() as int);
        lemma_header_is_written(frame);
        lemma_be_u16_bytes_of_value(payload);
        assert(payload.subrange(0, 2) =~= payload);
        assert(frame =~= frame.subrange(0, 5) + payload);
    } else {
        lemma_extension_frame_is_written(frame, extended);
    }
}

} // verus!
