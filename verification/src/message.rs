//! The message of the peer wire protocol: sizing a frame from the bytes that
//! have arrived, decoding a whole frame, and encoding a message.

use crate::bits_ext::{BitsExtensionMessage, ExtendedMessage};
use crate::buffer::{as_slice, contents};
use crate::error::MessageError;
use crate::prot_ext::{
    extension_frame, prot_ext_fits, prot_ext_id, prot_ext_payload, spec_parse_prot_ext,
    PeerExtensionProtocolMessage, ProtExtView, BASE_PROT_EXTENSION_MESSAGE_LEN,
};
use crate::standard::{
    bitfield_fits, bitfield_frame, block_fits, frame_header, piece_frame, spec_parse_bitfield,
    spec_parse_piece, write_length_id_pair, BitFieldMessage, CancelMessage, HaveMessage,
    PieceMessage, PieceView, RequestMessage, BASE_BITFIELD_MESSAGE_LEN, BASE_PIECE_MESSAGE_LEN,
    BITFIELD_MESSAGE_ID, CANCEL_MESSAGE_ID, CANCEL_MESSAGE_LEN, HAVE_MESSAGE_ID, HAVE_MESSAGE_LEN,
    MESSAGE_LENGTH_LEN_BYTES, PIECE_MESSAGE_ID, REQUEST_MESSAGE_ID, REQUEST_MESSAGE_LEN,
};
use crate::wire::{be_u32_bytes, be_u32_value, read_u32, read_u8, u32_to_usize};
use bytes::Bytes;
use vstd::prelude::*;

verus! {

pub const KEEP_ALIVE_MESSAGE_LEN: u32 = 0;

pub const CHOKE_MESSAGE_LEN: u32 = 1;

pub const UNCHOKE_MESSAGE_LEN: u32 = 1;

pub const INTERESTED_MESSAGE_LEN: u32 = 1;

pub const UNINTERESTED_MESSAGE_LEN: u32 = 1;

pub const CHOKE_MESSAGE_ID: u8 = 0;

pub const UNCHOKE_MESSAGE_ID: u8 = 1;

pub const INTERESTED_MESSAGE_ID: u8 = 2;

pub const UNINTERESTED_MESSAGE_ID: u8 = 3;

/// The number of bytes of the length prefix and the id byte together.
pub const HEADER_LEN: usize = 5;

/// What a message says, whatever buffers hold its payload.
pub enum MessageView {
    KeepAlive,
    Choke,
    UnChoke,
    Interested,
    UnInterested,
    Have(HaveMessage),
    BitField(Seq<u8>),
    Request(RequestMessage),
    Piece(PieceView),
    Cancel(CancelMessage),
    BitsExtension(BitsExtensionMessage),
    ProtExtension(ProtExtView),
}

/// Enumeration of messages of the peer wire protocol.
#[derive(Debug, PartialEq, Eq)]
pub enum PeerWireProtocolMessage {
    /// Message to keep the connection alive.
    KeepAlive,
    /// Message to tell a peer we will not be responding to their requests.
    Choke,
    /// Message to tell a peer we will now be responding to their requests.
    UnChoke,
    /// Message to tell a peer we are interested in downloading pieces from them.
    Interested,
    /// Message to tell a peer we are not interested in downloading pieces from them.
    UnInterested,
    /// Message to tell a peer we have some (validated) piece.
    Have(HaveMessage),
    /// Message to effectively send multiple have messages in a single message.
    BitField(BitFieldMessage),
    /// Message to request a block from a peer.
    Request(RequestMessage),
    /// Message from a peer containing a block.
    Piece(PieceMessage),
    /// Message to cancel a block request from a peer.
    Cancel(CancelMessage),
    /// Extension messages which are activated via reserved bits of the handshake.
    BitsExtension(BitsExtensionMessage),
    /// Extension messages which are activated via the extension protocol.
    ProtExtension(PeerExtensionProtocolMessage),
}

impl Clone for PeerWireProtocolMessage {
    fn clone(&self) -> (copy: PeerWireProtocolMessage)
        ensures
            copy@ == self@,
    {
        match self {
            PeerWireProtocolMessage::KeepAlive => PeerWireProtocolMessage::KeepAlive,
            PeerWireProtocolMessage::Choke => PeerWireProtocolMessage::Choke,
            PeerWireProtocolMessage::UnChoke => PeerWireProtocolMessage::UnChoke,
            PeerWireProtocolMessage::Interested => PeerWireProtocolMessage::Interested,
            PeerWireProtocolMessage::UnInterested => PeerWireProtocolMessage::UnInterested,
            PeerWireProtocolMessage::Have(m) => PeerWireProtocolMessage::Have(*m),
            PeerWireProtocolMessage::BitField(m) => PeerWireProtocolMessage::BitField(m.clone()),
            PeerWireProtocolMessage::Request(m) => PeerWireProtocolMessage::Request(*m),
            PeerWireProtocolMessage::Piece(m) => PeerWireProtocolMessage::Piece(m.clone()),
            PeerWireProtocolMessage::Cancel(m) => PeerWireProtocolMessage::Cancel(*m),
            PeerWireProtocolMessage::BitsExtension(m) => PeerWireProtocolMessage::BitsExtension(*m),
            PeerWireProtocolMessage::ProtExtension(m) => {
                PeerWireProtocolMessage::ProtExtension(m.clone())
            },
        }
    }
}

impl View for PeerWireProtocolMessage {
    type V = MessageView;

    open spec fn view(&self) -> MessageView {
        match self {
            PeerWireProtocolMessage::KeepAlive => MessageView::KeepAlive,
            PeerWireProtocolMessage::Choke => MessageView::Choke,
            PeerWireProtocolMessage::UnChoke => MessageView::UnChoke,
            PeerWireProtocolMessage::Interested => MessageView::Interested,
            PeerWireProtocolMessage::UnInterested => MessageView::UnInterested,
            PeerWireProtocolMessage::Have(m) => MessageView::Have(*m),
            PeerWireProtocolMessage::BitField(m) => MessageView::BitField(m@),
            PeerWireProtocolMessage::Request(m) => MessageView::Request(*m),
            PeerWireProtocolMessage::Piece(m) => MessageView::Piece(m@),
            PeerWireProtocolMessage::Cancel(m) => MessageView::Cancel(*m),
            PeerWireProtocolMessage::BitsExtension(m) => MessageView::BitsExtension(*m),
            PeerWireProtocolMessage::ProtExtension(m) => MessageView::ProtExtension(m@),
        }
    }
}

/// Tells whether a message can be framed: whatever payload it has must fit
/// behind a length prefix of 32 bits, in a frame that the host can index.
pub open spec fn message_fits(message: MessageView) -> bool {
    match message {
        MessageView::BitField(bits) => bitfield_fits(bits),
        MessageView::Piece(piece) => block_fits(piece.block),
        MessageView::ProtExtension(inner) => prot_ext_fits(inner),
        _ => true,
    }
}

/// The frame of a message: the bytes that a conformant peer expects for it.
/// A message of a negotiated extension has a frame only where the negotiated
/// table gives the extension an id.
pub open spec fn spec_frame(message: MessageView, extended: Option<ExtendedMessage>) -> Result<
    Seq<u8>,
    MessageError,
> {
    match message {
        MessageView::KeepAlive => Ok(be_u32_bytes(KEEP_ALIVE_MESSAGE_LEN)),
        MessageView::Choke => Ok(frame_header(CHOKE_MESSAGE_LEN, CHOKE_MESSAGE_ID)),
        MessageView::UnChoke => Ok(frame_header(UNCHOKE_MESSAGE_LEN, UNCHOKE_MESSAGE_ID)),
        MessageView::Interested => Ok(frame_header(INTERESTED_MESSAGE_LEN, INTERESTED_MESSAGE_ID)),
        MessageView::UnInterested => Ok(
            frame_header(UNINTERESTED_MESSAGE_LEN, UNINTERESTED_MESSAGE_ID),
        ),
        MessageView::Have(m) => Ok(m.frame()),
        MessageView::BitField(bits) => Ok(bitfield_frame(bits)),
        MessageView::Request(m) => Ok(m.frame()),
        MessageView::Piece(piece) => Ok(piece_frame(piece)),
        MessageView::Cancel(m) => Ok(m.frame()),
        MessageView::BitsExtension(m) => Ok(m.frame()),
        MessageView::ProtExtension(inner) => match prot_ext_id(inner, extended) {
            Some(id) => Ok(extension_frame(id, prot_ext_payload(inner))),
            None => Err(MessageError::UnresolvedExtension),
        },
    }
}

/// The number of bytes of a message's frame: the length prefix and what the
/// prefix counts.
pub open spec fn spec_message_size(message: MessageView) -> nat {
    MESSAGE_LENGTH_LEN_BYTES as nat + match message {
        MessageView::KeepAlive => KEEP_ALIVE_MESSAGE_LEN as nat,
        MessageView::Choke => CHOKE_MESSAGE_LEN as nat,
        MessageView::UnChoke => UNCHOKE_MESSAGE_LEN as nat,
        MessageView::Interested => INTERESTED_MESSAGE_LEN as nat,
        MessageView::UnInterested => UNINTERESTED_MESSAGE_LEN as nat,
        MessageView::Have(_) => HAVE_MESSAGE_LEN as nat,
        MessageView::BitField(bits) => BASE_BITFIELD_MESSAGE_LEN as nat + bits.len(),
        MessageView::Request(_) => REQUEST_MESSAGE_LEN as nat,
        MessageView::Piece(piece) => BASE_PIECE_MESSAGE_LEN as nat + piece.block.len(),
        MessageView::Cancel(_) => CANCEL_MESSAGE_LEN as nat,
        MessageView::BitsExtension(m) => m.spec_message_size(),
        MessageView::ProtExtension(inner) => BASE_PROT_EXTENSION_MESSAGE_LEN as nat
            + prot_ext_payload(inner).len(),
    }
}

/// What the frame sizer answers on the bytes that have arrived: nothing yet
/// with fewer than four bytes; else the size of the whole frame, the length
/// prefix and what it counts, or the failure of a size that the host cannot
/// index.
pub open spec fn spec_bytes_needed(bytes: Seq<u8>) -> Result<Option<usize>, MessageError> {
    if bytes.len() < MESSAGE_LENGTH_LEN_BYTES {
        Ok(None)
    } else if MESSAGE_LENGTH_LEN_BYTES + be_u32_value(bytes) > usize::MAX {
        Err(MessageError::LengthOutOfRange)
    } else {
        Ok(Some((MESSAGE_LENGTH_LEN_BYTES + be_u32_value(bytes)) as usize))
    }
}

/// Tells whether a length prefix and the id byte, if the frame has one,
/// stand in the table of the core messages. A bitfield and a piece are known
/// by their id alone, all others by length and id together.
pub open spec fn builtin_entry(length: u32, id: Option<u8>) -> bool {
    match id {
        None => length == KEEP_ALIVE_MESSAGE_LEN,
        Some(id) => {
            ||| length == KEEP_ALIVE_MESSAGE_LEN && id == 0
            ||| length == CHOKE_MESSAGE_LEN && id == CHOKE_MESSAGE_ID
            ||| length == UNCHOKE_MESSAGE_LEN && id == UNCHOKE_MESSAGE_ID
            ||| length == INTERESTED_MESSAGE_LEN && id == INTERESTED_MESSAGE_ID
            ||| length == UNINTERESTED_MESSAGE_LEN && id == UNINTERESTED_MESSAGE_ID
            ||| length == HAVE_MESSAGE_LEN && id == HAVE_MESSAGE_ID
            ||| id == BITFIELD_MESSAGE_ID
            ||| length == REQUEST_MESSAGE_LEN && id == REQUEST_MESSAGE_ID
            ||| id == PIECE_MESSAGE_ID
            ||| length == CANCEL_MESSAGE_LEN && id == CANCEL_MESSAGE_ID
        },
    }
}

/// The id byte of a frame, if the frame has one.
pub open spec fn frame_id(frame: Seq<u8>) -> Option<u8> {
    if frame.len() > MESSAGE_LENGTH_LEN_BYTES {
        Some(frame[4])
    } else {
        None
    }
}

/// The reading of a frame whose header stands in the table of the core
/// messages. A length prefix of zero is a keep-alive, alone or followed by
/// one zero byte. Every other frame must be as long as its prefix says, and
/// what follows the id byte is the payload of the message that the id names.
pub open spec fn spec_parse_entry(frame: Seq<u8>) -> Result<MessageView, MessageError>
    recommends
        frame.len() >= MESSAGE_LENGTH_LEN_BYTES,
        builtin_entry(be_u32_value(frame), frame_id(frame)),
{
    let length = be_u32_value(frame);
    let payload = frame.subrange(HEADER_LEN as int, frame.len() as int);
    match frame_id(frame) {
        None => Ok(MessageView::KeepAlive),
        Some(id) => if length == KEEP_ALIVE_MESSAGE_LEN && id == 0 {
            if frame.len() == HEADER_LEN {
                Ok(MessageView::KeepAlive)
            } else {
                Err(MessageError::Malformed)
            }
        } else if frame.len() != MESSAGE_LENGTH_LEN_BYTES + length {
            Err(MessageError::Malformed)
        } else if id == CHOKE_MESSAGE_ID {
            Ok(MessageView::Choke)
        } else if id == UNCHOKE_MESSAGE_ID {
            Ok(MessageView::UnChoke)
        } else if id == INTERESTED_MESSAGE_ID {
            Ok(MessageView::Interested)
        } else if id == UNINTERESTED_MESSAGE_ID {
            Ok(MessageView::UnInterested)
        } else if id == HAVE_MESSAGE_ID {
            match HaveMessage::spec_parse(payload) {
                Ok(m) => Ok(MessageView::Have(m)),
                Err(e) => Err(e),
            }
        } else if id == BITFIELD_MESSAGE_ID {
            match spec_parse_bitfield(payload) {
                Ok(bits) => Ok(MessageView::BitField(bits)),
                Err(e) => Err(e),
            }
        } else if id == REQUEST_MESSAGE_ID {
            match RequestMessage::spec_parse(payload) {
                Ok(m) => Ok(MessageView::Request(m)),
                Err(e) => Err(e),
            }
        } else if id == PIECE_MESSAGE_ID {
            match spec_parse_piece(payload) {
                Ok(piece) => Ok(MessageView::Piece(piece)),
                Err(e) => Err(e),
            }
        } else {
            match CancelMessage::spec_parse(payload) {
                Ok(m) => Ok(MessageView::Cancel(m)),
                Err(e) => Err(e),
            }
        },
    }
}

/// The reading of a whole frame by the tier of the core messages: `None`
/// where the header does not stand in their table, else the message or the
/// failure that the frame gives.
pub open spec fn spec_parse_builtin(frame: Seq<u8>) -> Option<Result<MessageView, MessageError>> {
    if frame.len() >= MESSAGE_LENGTH_LEN_BYTES && builtin_entry(
        be_u32_value(frame),
        frame_id(frame),
    ) {
        Some(spec_parse_entry(frame))
    } else {
        None
    }
}

/// The message that a whole frame stands for. The tiers are asked in fixed
/// order: the core messages, the messages of the reserved bits, the messages
/// of the extension protocol. The first tier whose header the frame carries
/// decides alone, be it with a message or with a failure; a frame that no
/// tier knows is malformed.
pub open spec fn spec_parse(frame: Seq<u8>, extended: Option<ExtendedMessage>) -> Result<
    MessageView,
    MessageError,
> {
    match spec_parse_builtin(frame) {
        Some(r) => r,
        None => match BitsExtensionMessage::spec_parse(frame) {
            Some(Ok(m)) => Ok(MessageView::BitsExtension(m)),
            Some(Err(e)) => Err(e),
            None => match spec_parse_prot_ext(frame, extended) {
                Some(Ok(inner)) => Ok(MessageView::ProtExtension(inner)),
                Some(Err(e)) => Err(e),
                None => Err(MessageError::Malformed),
            },
        },
    }
}

/// Tells whether a decoding result is the given reading of the frame.
pub open spec fn decodes_as(
    r: Result<PeerWireProtocolMessage, MessageError>,
    reading: Result<MessageView, MessageError>,
) -> bool {
    match r {
        Ok(m) => reading == Ok::<MessageView, MessageError>(m@),
        Err(e) => reading == Err::<MessageView, MessageError>(e),
    }
}

/// Reads the length prefix of a frame as a host size.
pub fn parse_message_length(bytes: &[u8]) -> (r: Result<usize, MessageError>)
    requires
        bytes@.len() >= MESSAGE_LENGTH_LEN_BYTES,
    ensures
        r == if be_u32_value(bytes@) <= usize::MAX {
            Ok::<usize, MessageError>(be_u32_value(bytes@) as usize)
        } else {
            Err(MessageError::LengthOutOfRange)
        },
{
    match read_u32(bytes, 0) {
        Some(length) => {
            assert(be_u32_value(bytes@.subrange(0, 4)) == be_u32_value(bytes@));
            u32_to_usize(length)
        },
        None => Err(MessageError::LengthOutOfRange),
    }
}

fn is_builtin_entry(length: u32, id: Option<u8>) -> (known: bool)
    ensures
        known == builtin_entry(length, id),
{
    match id {
        None => length == KEEP_ALIVE_MESSAGE_LEN,
        Some(id) => {
            let keep_alive = length == KEEP_ALIVE_MESSAGE_LEN && id == 0;
            let control = length == CHOKE_MESSAGE_LEN && id <= UNINTERESTED_MESSAGE_ID;
            let have = length == HAVE_MESSAGE_LEN && id == HAVE_MESSAGE_ID;
            let request = length == REQUEST_MESSAGE_LEN && id == REQUEST_MESSAGE_ID;
            let cancel = length == CANCEL_MESSAGE_LEN && id == CANCEL_MESSAGE_ID;
            let by_id_alone = id == BITFIELD_MESSAGE_ID || id == PIECE_MESSAGE_ID;
            keep_alive || control || have || request || cancel || by_id_alone
        },
    }
}

/// Decodes a frame whose header stands in the table of the core messages.
fn parse_entry(bytes: Bytes, length: u32, id: Option<u8>) -> (r: Result<
    PeerWireProtocolMessage,
    MessageError,
>)
    requires
        contents(bytes).len() >= MESSAGE_LENGTH_LEN_BYTES,
        length == be_u32_value(contents(bytes)),
        id == frame_id(contents(bytes)),
        builtin_entry(length, id),
    ensures
        decodes_as(r, spec_parse_entry(contents(bytes))),
{
    let mut header = bytes;
    let total = header.len();
    let id = match id {
        None => { return Ok(PeerWireProtocolMessage::KeepAlive); },
        Some(id) => id,
    };
    if length == KEEP_ALIVE_MESSAGE_LEN && id == 0 {
        return if total == HEADER_LEN {
            Ok(PeerWireProtocolMessage::KeepAlive)
        } else {
            Err(MessageError::Malformed)
        };
    }
    if total as u64 != MESSAGE_LENGTH_LEN_BYTES as u64 + length as u64 {
        return Err(MessageError::Malformed);
    }
    let payload = header.split_off(HEADER_LEN);
    if id == CHOKE_MESSAGE_ID {
        Ok(PeerWireProtocolMessage::Choke)
    } else if id == UNCHOKE_MESSAGE_ID {
        Ok(PeerWireProtocolMessage::UnChoke)
    } else if id == INTERESTED_MESSAGE_ID {
        Ok(PeerWireProtocolMessage::Interested)
    } else if id == UNINTERESTED_MESSAGE_ID {
        Ok(PeerWireProtocolMessage::UnInterested)
    } else if id == HAVE_MESSAGE_ID {
        match HaveMessage::parse_bytes(payload) {
            Ok(m) => Ok(PeerWireProtocolMessage::Have(m)),
            Err(e) => Err(e),
        }
    } else if id == BITFIELD_MESSAGE_ID {
        match BitFieldMessage::parse_bytes(payload) {
            Ok(m) => Ok(PeerWireProtocolMessage::BitField(m)),
            Err(e) => Err(e),
        }
    } else if id == REQUEST_MESSAGE_ID {
        match RequestMessage::parse_bytes(payload) {
            Ok(m) => Ok(PeerWireProtocolMessage::Request(m)),
            Err(e) => Err(e),
        }
    } else if id == PIECE_MESSAGE_ID {
        match PieceMessage::parse_bytes(payload) {
            Ok(m) => Ok(PeerWireProtocolMessage::Piece(m)),
            Err(e) => Err(e),
        }
    } else {
        match CancelMessage::parse_bytes(payload) {
            Ok(m) => Ok(PeerWireProtocolMessage::Cancel(m)),
            Err(e) => Err(e),
        }
    }
}

/// Decodes a whole frame, asking the tiers in their order.
pub fn parse_message(bytes: Bytes, extended: &Option<ExtendedMessage>) -> (r: Result<
    PeerWireProtocolMessage,
    MessageError,
>)
    ensures
        decodes_as(r, spec_parse(contents(bytes), *extended)),
{
    let header_bytes = bytes.clone();
    let header = as_slice(&header_bytes);
    let length = read_u32(header, 0);
    let id = read_u8(header, 4);
    if let Some(length) = length {
        assert(be_u32_value(header@.subrange(0, 4)) == be_u32_value(header@));
        if is_builtin_entry(length, id) {
            return parse_entry(bytes, length, id);
        }
    }
    match BitsExtensionMessage::parse_bytes(bytes.clone()) {
        Some(Ok(m)) => Ok(PeerWireProtocolMessage::BitsExtension(m)),
        Some(Err(e)) => Err(e),
        None => match PeerExtensionProtocolMessage::parse_bytes(bytes, extended) {
            Some(Ok(m)) => Ok(PeerWireProtocolMessage::ProtExtension(m)),
            Some(Err(e)) => Err(e),
            None => Err(MessageError::Malformed),
        },
    }
}

impl PeerWireProtocolMessage {
    /// The message that keeps a connection alive.
    pub fn keep_alive() -> (m: PeerWireProtocolMessage)
        ensures
            m@ == MessageView::KeepAlive,
    {
        PeerWireProtocolMessage::KeepAlive
    }

    /// Tells whether the message is the one that keeps a connection alive.
    pub fn is_keep_alive(&self) -> (b: bool)
        ensures
            b == (self@ == MessageView::KeepAlive),
    {
        match self {
            PeerWireProtocolMessage::KeepAlive => true,
            _ => false,
        }
    }

    /// Tells from the bytes that have arrived how many bytes the whole frame
    /// has, once the length prefix is among them.
    pub fn bytes_needed(bytes: &[u8]) -> (r: Result<Option<usize>, MessageError>)
        ensures
            r == spec_bytes_needed(bytes@),
    {
        if bytes.len() < MESSAGE_LENGTH_LEN_BYTES {
            return Ok(None);
        }
        match parse_message_length(bytes) {
            Ok(length) => {
                if length > usize::MAX - MESSAGE_LENGTH_LEN_BYTES {
                    Err(MessageError::LengthOutOfRange)
                } else {
                    Ok(Some(MESSAGE_LENGTH_LEN_BYTES + length))
                }
            },
            Err(e) => Err(e),
        }
    }

    /// Decodes a whole frame into the one message that it stands for.
    pub fn parse_bytes(bytes: Bytes, extended: &Option<ExtendedMessage>) -> (r: Result<
        PeerWireProtocolMessage,
        MessageError,
    >)
        ensures
            decodes_as(r, spec_parse(contents(bytes), *extended)),
            r matches Ok(m) ==> message_fits(m@),
    {
        proof {
            lemma_parsed_fits(contents(bytes), *extended);
        }
        parse_message(bytes, extended)
    }

    /// Appends the frame of the message. Where the message belongs to an
    /// extension for which the negotiated table holds no id, nothing is
    /// written.
    pub fn write_bytes(&self, writer: &mut Vec<u8>, extended: &Option<ExtendedMessage>) -> (r:
        Result<(), MessageError>)
        ensures
            match r {
                Ok(_) => spec_frame(self@, *extended) matches Ok(frame) && final(writer)@
                    == old(writer)@ + frame,
                Err(e) => spec_frame(self@, *extended) == Err::<Seq<u8>, MessageError>(e)
                    && final(writer)@ == old(writer)@,
            },
            r is Ok ==> final(writer)@.len() == old(writer)@.len() + spec_message_size(self@),
    {
        let r = match self {
            PeerWireProtocolMessage::KeepAlive => {
                write_length_id_pair(writer, KEEP_ALIVE_MESSAGE_LEN, None);
                Ok(())
            },
            PeerWireProtocolMessage::Choke => {
                write_length_id_pair(writer, CHOKE_MESSAGE_LEN, Some(CHOKE_MESSAGE_ID));
                Ok(())
            },
            PeerWireProtocolMessage::UnChoke => {
                write_length_id_pair(writer, UNCHOKE_MESSAGE_LEN, Some(UNCHOKE_MESSAGE_ID));
                Ok(())
            },
            PeerWireProtocolMessage::Interested => {
                write_length_id_pair(writer, INTERESTED_MESSAGE_LEN, Some(INTERESTED_MESSAGE_ID));
                Ok(())
            },
            PeerWireProtocolMessage::UnInterested => {
                write_length_id_pair(
                    writer,
                    UNINTERESTED_MESSAGE_LEN,
                    Some(UNINTERESTED_MESSAGE_ID),
                );
                Ok(())
            },
            PeerWireProtocolMessage::Have(msg) => {
                msg.write_bytes(writer);
                Ok(())
            },
            PeerWireProtocolMessage::BitField(msg) => {
                msg.write_bytes(writer);
                Ok(())
            },
            PeerWireProtocolMessage::Request(msg) => {
                msg.write_bytes(writer);
                Ok(())
            },
            PeerWireProtocolMessage::Piece(msg) => {
                msg.write_bytes(writer);
                Ok(())
            },
            PeerWireProtocolMessage::Cancel(msg) => {
                msg.write_bytes(writer);
                Ok(())
            },
            PeerWireProtocolMessage::BitsExtension(ext) => {
                ext.write_bytes(writer);
                Ok(())
            },
            PeerWireProtocolMessage::ProtExtension(ext) => ext.write_bytes(writer, extended),
        };
        proof {
            lemma_frame_len(self@, *extended);
        }
        r
    }

    /// The number of bytes that writing the message produces.
    pub fn message_size(&self) -> (n: usize)
        ensures
            n == spec_message_size(self@),
            message_fits(self@),
    {
        let message_specific_len: usize = match self {
            PeerWireProtocolMessage::KeepAlive => KEEP_ALIVE_MESSAGE_LEN as usize,
            PeerWireProtocolMessage::Choke => CHOKE_MESSAGE_LEN as usize,
            PeerWireProtocolMessage::UnChoke => UNCHOKE_MESSAGE_LEN as usize,
            PeerWireProtocolMessage::Interested => INTERESTED_MESSAGE_LEN as usize,
            PeerWireProtocolMessage::UnInterested => UNINTERESTED_MESSAGE_LEN as usize,
            PeerWireProtocolMessage::Have(_) => HAVE_MESSAGE_LEN as usize,
            PeerWireProtocolMessage::BitField(msg) => {
                BASE_BITFIELD_MESSAGE_LEN as usize + msg.bitfield().len()
            },
            PeerWireProtocolMessage::Request(_) => REQUEST_MESSAGE_LEN as usize,
            PeerWireProtocolMessage::Piece(msg) => {
                BASE_PIECE_MESSAGE_LEN as usize + msg.block().len()
            },
            PeerWireProtocolMessage::Cancel(_) => CANCEL_MESSAGE_LEN as usize,
            PeerWireProtocolMessage::BitsExtension(ext) => ext.message_size(),
            PeerWireProtocolMessage::ProtExtension(ext) => {
                BASE_PROT_EXTENSION_MESSAGE_LEN as usize + ext.message_size()
            },
        };
        MESSAGE_LENGTH_LEN_BYTES + message_specific_len
    }
}

/// What a frame decodes to can be framed again.
pub proof fn lemma_parsed_fits(frame: Seq<u8>, extended: Option<ExtendedMessage>)
    ensures
        spec_parse(frame, extended) matches Ok(message) ==> message_fits(message),
{
}

/// A frame has as many bytes as the size of its message says.
pub proof fn lemma_frame_len(message: MessageView, extended: Option<ExtendedMessage>)
    requires
        message_fits(message),
    ensures
        spec_frame(message, extended) matches Ok(frame) ==> frame.len() == spec_message_size(
            message,
        ),
{
}

} // verus!
