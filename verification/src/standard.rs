//! The core messages that carry a payload: have, bitfield, request, piece and cancel.
//!
//! Each message decodes from its payload, the bytes that follow the length
//! prefix and the id byte of its frame, and encodes to its whole frame.

use crate::buffer::{as_slice, contents};
use crate::error::MessageError;
use crate::wire::{be_u32_bytes, be_u32_value, read_u32, u32_to_usize, write_all, write_u32};
use bytes::Bytes;
use vstd::prelude::*;

verus! {

pub const HAVE_MESSAGE_LEN: u32 = 5;

pub const BASE_BITFIELD_MESSAGE_LEN: u32 = 1;

pub const REQUEST_MESSAGE_LEN: u32 = 13;

pub const BASE_PIECE_MESSAGE_LEN: u32 = 9;

pub const CANCEL_MESSAGE_LEN: u32 = 13;

pub const HAVE_MESSAGE_ID: u8 = 4;

pub const BITFIELD_MESSAGE_ID: u8 = 5;

pub const REQUEST_MESSAGE_ID: u8 = 6;

pub const PIECE_MESSAGE_ID: u8 = 7;

pub const CANCEL_MESSAGE_ID: u8 = 8;

/// The number of bytes of the length prefix.
pub const MESSAGE_LENGTH_LEN_BYTES: usize = 4;

/// Tells whether a frame whose length prefix carries `length` can exist: the
/// prefix has 32 bits, and the host must be able to index the whole frame.
pub open spec fn frame_fits(length: nat) -> bool {
    length <= u32::MAX && MESSAGE_LENGTH_LEN_BYTES + length <= usize::MAX
}

/// Tells whether a frame can hold `fixed` bytes and `len` more behind its
/// length prefix.
pub fn fits_frame(fixed: u32, len: usize) -> (fits: bool)
    ensures
        fits == frame_fits(fixed as nat + len as nat),
{
    if len as u64 > (u32::MAX - fixed) as u64 {
        return false;
    }
    let total: u64 = MESSAGE_LENGTH_LEN_BYTES as u64 + fixed as u64 + len as u64;
    total <= usize::MAX as u64
}

/// The length prefix and id byte that open a frame.
pub open spec fn frame_header(length: u32, id: u8) -> Seq<u8> {
    be_u32_bytes(length).push(id)
}

/// Appends the length prefix and, where the message has one, the id byte.
pub fn write_length_id_pair(out: &mut Vec<u8>, length: u32, opt_id: Option<u8>)
    ensures
        final(out)@ == old(out)@ + match opt_id {
            Some(id) => frame_header(length, id),
            None => be_u32_bytes(length),
        },
{
    write_u32(out, length);
    if let Some(id) = opt_id {
        out.push(id);
        assert(out@ =~= old(out)@ + frame_header(length, id));
    }
}

/// Announces a piece that the sender holds in full.
#[derive(Clone, Copy, Debug, PartialEq, Eq, Structural)]
pub struct HaveMessage {
    pub piece_index: u32,
}

impl HaveMessage {
    /// The message that a payload stands for: exactly four bytes, the piece index.
    pub open spec fn spec_parse(payload: Seq<u8>) -> Result<HaveMessage, MessageError> {
        if payload.len() == 4 {
            Ok(HaveMessage { piece_index: be_u32_value(payload) })
        } else {
            Err(MessageError::Malformed)
        }
    }

    /// The frame of the message.
    pub open spec fn frame(self) -> Seq<u8> {
        frame_header(HAVE_MESSAGE_LEN, HAVE_MESSAGE_ID) + be_u32_bytes(self.piece_index)
    }

    pub fn new(piece_index: u32) -> (m: HaveMessage)
        ensures
            m.piece_index == piece_index,
    {
        HaveMessage { piece_index }
    }

    pub fn piece_index(&self) -> (i: u32)
        ensures
            i == self.piece_index,
    {
        self.piece_index
    }

    /// Decodes the payload of a have frame.
    pub fn parse_bytes(payload: Bytes) -> (r: Result<HaveMessage, MessageError>)
        ensures
            r == HaveMessage::spec_parse(contents(payload)),
    {
        let bytes = as_slice(&payload);
        if bytes.len() != 4 {
            return Err(MessageError::Malformed);
        }
        match read_u32(bytes, 0) {
            Some(piece_index) => {
                assert(bytes@.subrange(0, 4) =~= bytes@);
                Ok(HaveMessage { piece_index })
            },
            None => Err(MessageError::Malformed),
        }
    }

    /// Appends the frame of the message.
    pub fn write_bytes(&self, out: &mut Vec<u8>)
        ensures
            final(out)@ == old(out)@ + self.frame(),
    {
        write_length_id_pair(out, HAVE_MESSAGE_LEN, Some(HAVE_MESSAGE_ID));
        write_u32(out, self.piece_index);
        assert(out@ =~= old(out)@ + self.frame());
    }
}

/// The three numbers of a request or a cancel, read from a payload of exactly
/// twelve bytes; a length that the host cannot index with is refused.
pub open spec fn spec_parse_block_range(payload: Seq<u8>) -> Result<(u32, u32, u32), MessageError> {
    if payload.len() != 12 {
        Err(MessageError::Malformed)
    } else if be_u32_value(payload.subrange(8, 12)) > usize::MAX {
        Err(MessageError::LengthOutOfRange)
    } else {
        Ok(
            (
                be_u32_value(payload.subrange(0, 4)),
                be_u32_value(payload.subrange(4, 8)),
                be_u32_value(payload.subrange(8, 12)),
            ),
        )
    }
}

/// The payload of a request or a cancel.
pub open spec fn block_range_bytes(index: u32, begin: u32, length: u32) -> Seq<u8> {
    be_u32_bytes(index) + be_u32_bytes(begin) + be_u32_bytes(length)
}

fn parse_block_range(payload: &Bytes) -> (r: Result<(u32, u32, u32), MessageError>)
    ensures
        r == spec_parse_block_range(contents(*payload)),
{
    let bytes = as_slice(payload);
    if bytes.len() != 12 {
        return Err(MessageError::Malformed);
    }
    match (read_u32(bytes, 0), read_u32(bytes, 4), read_u32(bytes, 8)) {
        (Some(index), Some(begin), Some(length)) => {
            match u32_to_usize(length) {
                Ok(_) => Ok((index, begin, length)),
                Err(e) => Err(e),
            }
        },
        _ => Err(MessageError::Malformed),
    }
}

fn write_block_range(out: &mut Vec<u8>, index: u32, begin: u32, length: u32)
    ensures
        final(out)@ == old(out)@ + block_range_bytes(index, begin, length),
{
    write_u32(out, index);
    write_u32(out, begin);
    write_u32(out, length);
    assert(out@ =~= old(out)@ + block_range_bytes(index, begin, length));
}

/// Asks for a block: `length` bytes that start at `begin` within piece `index`.
#[derive(Clone, Copy, Debug, PartialEq, Eq, Structural)]
pub struct RequestMessage {
    pub index: u32,
    pub begin: u32,
    pub length: u32,
}

impl RequestMessage {
    /// The message that a payload stands for.
    pub open spec fn spec_parse(payload: Seq<u8>) -> Result<RequestMessage, MessageError> {
        match spec_parse_block_range(payload) {
            Ok((index, begin, length)) => Ok(RequestMessage { index, begin, length }),
            Err(e) => Err(e),
        }
    }

    /// The frame of the message.
    pub open spec fn frame(self) -> Seq<u8> {
        frame_header(REQUEST_MESSAGE_LEN, REQUEST_MESSAGE_ID) + block_range_bytes(
            self.index,
            self.begin,
            self.length,
        )
    }

    pub fn new(index: u32, begin: u32, length: u32) -> (m: RequestMessage)
        ensures
            m == (RequestMessage { index, begin, length }),
    {
        RequestMessage { index, begin, length }
    }

    /// Decodes the payload of a request frame.
    pub fn parse_bytes(payload: Bytes) -> (r: Result<RequestMessage, MessageError>)
        ensures
            r == RequestMessage::spec_parse(contents(payload)),
    {
        match parse_block_range(&payload) {
            Ok((index, begin, length)) => Ok(RequestMessage { index, begin, length }),
            Err(e) => Err(e),
        }
    }

    /// Appends the frame of the message.
    pub fn write_bytes(&self, out: &mut Vec<u8>)
        ensures
            final(out)@ == old(out)@ + self.frame(),
    {
        write_length_id_pair(out, REQUEST_MESSAGE_LEN, Some(REQUEST_MESSAGE_ID));
        write_block_range(out, self.index, self.begin, self.length);
        assert(out@ =~= old(out)@ + self.frame());
    }
}

/// Withdraws an earlier request for the same block.
#[derive(Clone, Copy, Debug, PartialEq, Eq, Structural)]
pub struct CancelMessage {
    pub index: u32,
    pub begin: u32,
    pub length: u32,
}

impl CancelMessage {
    /// The message that a payload stands for.
    pub open spec fn spec_parse(payload: Seq<u8>) -> Result<CancelMessage, MessageError> {
        match spec_parse_block_range(payload) {
            Ok((index, begin, length)) => Ok(CancelMessage { index, begin, length }),
            Err(e) => Err(e),
        }
    }

    /// The frame of the message.
    pub open spec fn frame(self) -> Seq<u8> {
        frame_header(CANCEL_MESSAGE_LEN, CANCEL_MESSAGE_ID) + block_range_bytes(
            self.index,
            self.begin,
            self.length,
        )
    }

    pub fn new(index: u32, begin: u32, length: u32) -> (m: CancelMessage)
        ensures
            m == (CancelMessage { index, begin, length }),
    {
        CancelMessage { index, begin, length }
    }

    /// Decodes the payload of a cancel frame.
    pub fn parse_bytes(payload: Bytes) -> (r: Result<CancelMessage, MessageError>)
        ensures
            r == CancelMessage::spec_parse(contents(payload)),
    {
        match parse_block_range(&payload) {
            Ok((index, begin, length)) => Ok(CancelMessage { index, begin, length }),
            Err(e) => Err(e),
        }
    }

    /// Appends the frame of the message.
    pub fn write_bytes(&self, out: &mut Vec<u8>)
        ensures
            final(out)@ == old(out)@ + self.frame(),
    {
        write_length_id_pair(out, CANCEL_MESSAGE_LEN, Some(CANCEL_MESSAGE_ID));
        write_block_range(out, self.index, self.begin, self.length);
        assert(out@ =~= old(out)@ + self.frame());
    }
}

/// Tells whether a bitfield can be framed with its id byte.
pub open spec fn bitfield_fits(bits: Seq<u8>) -> bool {
    frame_fits(BASE_BITFIELD_MESSAGE_LEN as nat + bits.len())
}

/// Tells whether the bit for piece `index` is set: pieces are counted from the
/// most significant bit of the first byte.
pub open spec fn bitfield_has_piece(bits: Seq<u8>, index: u32) -> bool {
    index / 8 < bits.len() && bits[index as int / 8] & (0x80u8 >> ((index % 8) as u8)) != 0
}

/// The frame of a bitfield.
pub open spec fn bitfield_frame(bits: Seq<u8>) -> Seq<u8> {
    frame_header((BASE_BITFIELD_MESSAGE_LEN + bits.len()) as u32, BITFIELD_MESSAGE_ID) + bits
}

/// The bitfield that a payload stands for: the payload itself.
pub open spec fn spec_parse_bitfield(payload: Seq<u8>) -> Result<Seq<u8>, MessageError> {
    if bitfield_fits(payload) {
        Ok(payload)
    } else {
        Err(MessageError::LengthOutOfRange)
    }
}

/// Tells which pieces the sender holds, one bit for each piece.
///
/// The view is the bitfield's bytes; every value can be framed.
#[derive(Debug, PartialEq, Eq)]
pub struct BitFieldMessage {
    bytes: Bytes,
}

impl Clone for BitFieldMessage {
    fn clone(&self) -> (copy: BitFieldMessage)
        ensures
            copy@ == self@,
    {
        proof {
            use_type_invariant(self);
        }
        BitFieldMessage { bytes: self.bytes.clone() }
    }
}

impl View for BitFieldMessage {
    type V = Seq<u8>;

    closed spec fn view(&self) -> Seq<u8> {
        contents(self.bytes)
    }
}

impl BitFieldMessage {
    #[verifier::type_invariant]
    spec fn framed(&self) -> bool {
        bitfield_fits(contents(self.bytes))
    }

    /// Makes a bitfield of the given bytes, unless they are too many for a frame.
    pub fn new(bytes: Bytes) -> (r: Result<BitFieldMessage, MessageError>)
        ensures
            match r {
                Ok(m) => bitfield_fits(contents(bytes)) && m@ == contents(bytes),
                Err(e) => !bitfield_fits(contents(bytes)) && e == MessageError::LengthOutOfRange,
            },
    {
        if fits_frame(BASE_BITFIELD_MESSAGE_LEN, bytes.len()) {
            Ok(BitFieldMessage { bytes })
        } else {
            Err(MessageError::LengthOutOfRange)
        }
    }

    /// The bytes of the bitfield.
    pub fn bitfield(&self) -> (bytes: &Bytes)
        ensures
            contents(*bytes) == self@,
            bitfield_fits(self@),
    {
        proof {
            use_type_invariant(self);
        }
        &self.bytes
    }

    /// Tells whether the sender holds piece `index`.
    pub fn has_piece(&self, index: u32) -> (held: bool)
        ensures
            held == bitfield_has_piece(self@, index),
    {
        let bytes = as_slice(&self.bytes);
        let at = (index / 8) as usize;
        if at >= bytes.len() {
            return false;
        }
        let mask: u8 = 0x80u8 >> ((index % 8) as u8);
        bytes[at] & mask != 0
    }

    /// Decodes the payload of a bitfield frame.
    pub fn parse_bytes(payload: Bytes) -> (r: Result<BitFieldMessage, MessageError>)
        ensures
            match r {
                Ok(m) => spec_parse_bitfield(contents(payload)) == Ok::<Seq<u8>, MessageError>(m@),
                Err(e) => spec_parse_bitfield(contents(payload)) == Err::<Seq<u8>, MessageError>(e),
            },
    {
        BitFieldMessage::new(payload)
    }

    /// Appends the frame of the message.
    pub fn write_bytes(&self, out: &mut Vec<u8>)
        ensures
            final(out)@ == old(out)@ + bitfield_frame(self@),
            bitfield_fits(self@),
    {
        proof {
            use_type_invariant(self);
        }
        let bytes = as_slice(&self.bytes);
        let length: u32 = BASE_BITFIELD_MESSAGE_LEN + bytes.len() as u32;
        write_length_id_pair(out, length, Some(BITFIELD_MESSAGE_ID));
        write_all(out, bytes);
        assert(out@ =~= old(out)@ + bitfield_frame(self@));
    }
}

/// What a piece message says: the block and where it belongs.
pub struct PieceView {
    pub index: u32,
    pub begin: u32,
    pub block: Seq<u8>,
}

/// Tells whether a block can be framed with the nine bytes before it.
pub open spec fn block_fits(block: Seq<u8>) -> bool {
    frame_fits(BASE_PIECE_MESSAGE_LEN as nat + block.len())
}

/// The frame of a piece message.
pub open spec fn piece_frame(piece: PieceView) -> Seq<u8> {
    frame_header((BASE_PIECE_MESSAGE_LEN + piece.block.len()) as u32, PIECE_MESSAGE_ID)
        + be_u32_bytes(piece.index) + be_u32_bytes(piece.begin) + piece.block
}

/// The piece message that a payload stands for: index, offset, and the block
/// in all the bytes that follow.
pub open spec fn spec_parse_piece(payload: Seq<u8>) -> Result<PieceView, MessageError> {
    if payload.len() < 8 {
        Err(MessageError::Malformed)
    } else if !block_fits(payload.subrange(8, payload.len() as int)) {
        Err(MessageError::LengthOutOfRange)
    } else {
        Ok(
            PieceView {
                index: be_u32_value(payload.subrange(0, 4)),
                begin: be_u32_value(payload.subrange(4, 8)),
                block: payload.subrange(8, payload.len() as int),
            },
        )
    }
}

/// Carries a block: the bytes that start at `begin` within piece `index`.
///
/// Every value can be framed.
#[derive(Debug, PartialEq, Eq)]
pub struct PieceMessage {
    index: u32,
    begin: u32,
    block: Bytes,
}

impl Clone for PieceMessage {
    fn clone(&self) -> (copy: PieceMessage)
        ensures
            copy@ == self@,
    {
        proof {
            use_type_invariant(self);
        }
        PieceMessage { index: self.index, begin: self.begin, block: self.block.clone() }
    }
}

impl View for PieceMessage {
    type V = PieceView;

    closed spec fn view(&self) -> PieceView {
        PieceView { index: self.index, begin: self.begin, block: contents(self.block) }
    }
}

impl PieceMessage {
    #[verifier::type_invariant]
    spec fn framed(&self) -> bool {
        block_fits(contents(self.block))
    }

    /// Makes a piece message, unless the block is too long for a frame.
    pub fn new(index: u32, begin: u32, block: Bytes) -> (r: Result<PieceMessage, MessageError>)
        ensures
            match r {
                Ok(m) => block_fits(contents(block)) && m@ == (PieceView {
                    index,
                    begin,
                    block: contents(block),
                }),
                Err(e) => !block_fits(contents(block)) && e == MessageError::LengthOutOfRange,
            },
    {
        if fits_frame(BASE_PIECE_MESSAGE_LEN, block.len()) {
            Ok(PieceMessage { index, begin, block })
        } else {
            Err(MessageError::LengthOutOfRange)
        }
    }

    pub fn piece_index(&self) -> (i: u32)
        ensures
            i == self@.index,
    {
        self.index
    }

    pub fn block_offset(&self) -> (o: u32)
        ensures
            o == self@.begin,
    {
        self.begin
    }

    /// The bytes of the block.
    pub fn block(&self) -> (bytes: &Bytes)
        ensures
            contents(*bytes) == self@.block,
            block_fits(self@.block),
    {
        proof {
            use_type_invariant(self);
        }
        &self.block
    }

    /// Decodes the payload of a piece frame.
    pub fn parse_bytes(payload: Bytes) -> (r: Result<PieceMessage, MessageError>)
        ensures
            match r {
                Ok(m) => spec_parse_piece(contents(payload)) == Ok::<PieceView, MessageError>(m@),
                Err(e) => spec_parse_piece(contents(payload)) == Err::<PieceView, MessageError>(e),
            },
    {
        let mut head = payload;
        if head.len() < 8 {
            return Err(MessageError::Malformed);
        }
        let block = head.split_off(8);
        let bytes = as_slice(&head);
        match (read_u32(bytes, 0), read_u32(bytes, 4)) {
            (Some(index), Some(begin)) => {
                assert(bytes@.subrange(0, 4) =~= contents(payload).subrange(0, 4));
                assert(bytes@.subrange(4, 8) =~= contents(payload).subrange(4, 8));
                PieceMessage::new(index, begin, block)
            },
            _ => Err(MessageError::Malformed),
        }
    }

    /// Appends the frame of the message.
    pub fn write_bytes(&self, out: &mut Vec<u8>)
        ensures
            final(out)@ == old(out)@ + piece_frame(self@),
            block_fits(self@.block),
    {
        proof {
            use_type_invariant(self);
        }
        let block = as_slice(&self.block);
        let length: u32 = BASE_PIECE_MESSAGE_LEN + block.len() as u32;
        write_length_id_pair(out, length, Some(PIECE_MESSAGE_ID));
        write_u32(out, self.index);
        write_u32(out, self.begin);
        write_all(out, block);
        assert(out@ =~= old(out)@ + piece_frame(self@));
    }
}

} // verus!
