//! Messages of the negotiated extension protocol: the metadata exchange, and
//! a catch-all for extensions that this layer does not know.

use crate::bencode::{
    decimal, decimal_len, has_text_at, read_decimal, spec_read_decimal, starts_with_at,
    write_decimal,
};
use crate::bits_ext::{resolve_id, resolve_type, ExtendedMessage, ExtendedType};
use crate::buffer::{as_slice, contents};
use crate::error::MessageError;
use crate::standard::{fits_frame, frame_fits, frame_header, write_length_id_pair};
use crate::wire::{be_u32_value, read_u32, read_u8, usize_to_u32, write_all};
use bytes::Bytes;
use vstd::prelude::*;

verus! {

/// The id byte of every frame of the extension protocol.
pub const EXTENDED_MESSAGE_ID: u8 = 20;

/// What an extension frame holds besides the extension's own payload: the
/// id byte and the extension's id.
pub const BASE_PROT_EXTENSION_MESSAGE_LEN: u32 = 2;

/// The digit that marks a metadata request.
pub const REQUEST_MESSAGE_TYPE: u8 = 48;

/// The digit that marks metadata data.
pub const DATA_MESSAGE_TYPE: u8 = 49;

/// The digit that marks a metadata reject.
pub const REJECT_MESSAGE_TYPE: u8 = 50;

/// `d8:msg_typei`, which opens the dictionary up to the digit of the message type.
pub open spec fn dict_open() -> Seq<u8> {
    seq![100u8, 56u8, 58u8, 109u8, 115u8, 103u8, 95u8, 116u8, 121u8, 112u8, 101u8, 105u8]
}

/// `e5:piecei`, which closes the message type and leads to the piece number.
pub open spec fn piece_key() -> Seq<u8> {
    seq![101u8, 53u8, 58u8, 112u8, 105u8, 101u8, 99u8, 101u8, 105u8]
}

/// `e10:total_sizei`, which closes the piece number and leads to the size of the block.
pub open spec fn size_key() -> Seq<u8> {
    seq![
        101u8, 49u8, 48u8, 58u8, 116u8, 111u8, 116u8, 97u8, 108u8, 95u8, 115u8, 105u8, 122u8,
        101u8, 105u8,
    ]
}

/// `ee`, which closes the last number and the dictionary.
pub open spec fn dict_close() -> Seq<u8> {
    seq![101u8, 101u8]
}

/// The dictionary from its opening up to the digits of the piece number.
pub open spec fn dict_head(msg_type: u8, piece: u32) -> Seq<u8> {
    dict_open().push(msg_type) + piece_key() + decimal(piece as nat)
}

/// The payload of a request or a reject: a dictionary of message type and piece.
pub open spec fn short_payload(msg_type: u8, piece: u32) -> Seq<u8> {
    dict_head(msg_type, piece) + dict_close()
}

/// The payload of a data message: a dictionary of message type, piece and the
/// size of the block, then the block itself.
pub open spec fn data_payload(piece: u32, data: Seq<u8>) -> Seq<u8> {
    dict_head(DATA_MESSAGE_TYPE, piece) + size_key() + decimal(data.len()) + dict_close() + data
}

/// Tells whether a block of metadata can be framed with its dictionary.
pub open spec fn data_fits(piece: u32, data: Seq<u8>) -> bool {
    extension_payload_fits(data_payload(piece, data))
}

fn dict_open_text() -> (text: [u8; 12])
    ensures
        text@ == dict_open(),
{
    let text: [u8; 12] = [100, 56, 58, 109, 115, 103, 95, 116, 121, 112, 101, 105];
    assert(text@ =~= dict_open());
    text
}

fn piece_key_text() -> (text: [u8; 9])
    ensures
        text@ == piece_key(),
{
    let text: [u8; 9] = [101, 53, 58, 112, 105, 101, 99, 101, 105];
    assert(text@ =~= piece_key());
    text
}

fn size_key_text() -> (text: [u8; 15])
    ensures
        text@ == size_key(),
{
    let text: [u8; 15] = [101, 49, 48, 58, 116, 111, 116, 97, 108, 95, 115, 105, 122, 101, 105];
    assert(text@ =~= size_key());
    text
}

fn dict_close_text() -> (text: [u8; 2])
    ensures
        text@ == dict_close(),
{
    let text: [u8; 2] = [101, 101];
    assert(text@ =~= dict_close());
    text
}

fn write_dict_head(out: &mut Vec<u8>, msg_type: u8, piece: u32)
    ensures
        final(out)@ == old(out)@ + dict_head(msg_type, piece),
{
    write_all(out, dict_open_text().as_slice());
    out.push(msg_type);
    write_all(out, piece_key_text().as_slice());
    write_decimal(out, piece);
    assert(out@ =~= old(out)@ + dict_head(msg_type, piece));
}

fn write_dict_close(out: &mut Vec<u8>)
    ensures
        final(out)@ == old(out)@ + dict_close(),
{
    write_all(out, dict_close_text().as_slice());
}

fn write_short_payload(out: &mut Vec<u8>, msg_type: u8, piece: u32)
    ensures
        final(out)@ == old(out)@ + short_payload(msg_type, piece),
{
    write_dict_head(out, msg_type, piece);
    write_dict_close(out);
    assert(out@ =~= old(out)@ + short_payload(msg_type, piece));
}

fn short_payload_len(piece: u32) -> (n: usize)
    ensures
        forall|msg_type: u8| n == #[trigger] short_payload(msg_type, piece).len(),
        n <= 34,
{
    24 + decimal_len(piece)
}

/// Asks for a piece of the metadata.
#[derive(Clone, Copy, Debug, PartialEq, Eq, Structural)]
pub struct UtMetadataRequestMessage {
    pub piece: u32,
}

impl UtMetadataRequestMessage {
    pub fn new(piece: u32) -> (m: UtMetadataRequestMessage)
        ensures
            m.piece == piece,
    {
        UtMetadataRequestMessage { piece }
    }

    /// The extension's payload for the message.
    pub open spec fn payload(self) -> Seq<u8> {
        short_payload(REQUEST_MESSAGE_TYPE, self.piece)
    }

    /// Appends the extension's payload for the message.
    pub fn write_bytes(&self, out: &mut Vec<u8>)
        ensures
            final(out)@ == old(out)@ + self.payload(),
    {
        write_short_payload(out, REQUEST_MESSAGE_TYPE, self.piece)
    }

    /// The length of the extension's payload for the message.
    pub fn message_size(&self) -> (n: usize)
        ensures
            n == self.payload().len(),
            n <= 34,
    {
        short_payload_len(self.piece)
    }
}

/// Refuses a request for a piece of the metadata.
#[derive(Clone, Copy, Debug, PartialEq, Eq, Structural)]
pub struct UtMetadataRejectMessage {
    pub piece: u32,
}

impl UtMetadataRejectMessage {
    pub fn new(piece: u32) -> (m: UtMetadataRejectMessage)
        ensures
            m.piece == piece,
    {
        UtMetadataRejectMessage { piece }
    }

    /// The extension's payload for the message.
    pub open spec fn payload(self) -> Seq<u8> {
        short_payload(REJECT_MESSAGE_TYPE, self.piece)
    }

    /// Appends the extension's payload for the message.
    pub fn write_bytes(&self, out: &mut Vec<u8>)
        ensures
            final(out)@ == old(out)@ + self.payload(),
    {
        write_short_payload(out, REJECT_MESSAGE_TYPE, self.piece)
    }

    /// The length of the extension's payload for the message.
    pub fn message_size(&self) -> (n: usize)
        ensures
            n == self.payload().len(),
            n <= 34,
    {
        short_payload_len(self.piece)
    }
}

/// What a data message says: a piece of the metadata and its number.
pub struct UtMetadataDataView {
    pub piece: u32,
    pub data: Seq<u8>,
}

/// Carries a piece of the metadata.
///
/// Every value can be framed with its dictionary.
#[derive(Debug, PartialEq, Eq)]
pub struct UtMetadataDataMessage {
    piece: u32,
    data: Bytes,
}

impl View for UtMetadataDataMessage {
    type V = UtMetadataDataView;

    closed spec fn view(&self) -> UtMetadataDataView {
        UtMetadataDataView { piece: self.piece, data: contents(self.data) }
    }
}

impl Clone for UtMetadataDataMessage {
    fn clone(&self) -> (copy: UtMetadataDataMessage)
        ensures
            copy@ == self@,
    {
        proof {
            use_type_invariant(self);
        }
        UtMetadataDataMessage { piece: self.piece, data: self.data.clone() }
    }
}

impl UtMetadataDataMessage {
    #[verifier::type_invariant]
    spec fn framed(&self) -> bool {
        data_fits(self.piece, contents(self.data))
    }

    /// Makes a data message, unless the block is too long for a frame.
    pub fn new(piece: u32, data: Bytes) -> (r: Result<UtMetadataDataMessage, MessageError>)
        ensures
            match r {
                Ok(m) => data_fits(piece, contents(data)) && m@ == (UtMetadataDataView {
                    piece,
                    data: contents(data),
                }),
                Err(e) => !data_fits(piece, contents(data)) && e == MessageError::LengthOutOfRange,
            },
    {
        let len = data.len();
        let size = match usize_to_u32(len) {
            Ok(size) => size,
            Err(e) => { return Err(e); },
        };
        let dictionary: u32 = 39 + decimal_len(piece) as u32 + decimal_len(size) as u32;
        if fits_frame(BASE_PROT_EXTENSION_MESSAGE_LEN + dictionary, len) {
            Ok(UtMetadataDataMessage { piece, data })
        } else {
            Err(MessageError::LengthOutOfRange)
        }
    }

    pub fn piece(&self) -> (piece: u32)
        ensures
            piece == self@.piece,
    {
        self.piece
    }

    /// The bytes of the block.
    pub fn data(&self) -> (bytes: &Bytes)
        ensures
            contents(*bytes) == self@.data,
            data_fits(self@.piece, self@.data),
    {
        proof {
            use_type_invariant(self);
        }
        &self.data
    }

    /// The length of the block, which the dictionary declares.
    pub fn total_size(&self) -> (size: u32)
        ensures
            size == self@.data.len(),
    {
        proof {
            use_type_invariant(self);
        }
        self.data.len() as u32
    }

    /// Appends the extension's payload for the message.
    pub fn write_bytes(&self, out: &mut Vec<u8>)
        ensures
            final(out)@ == old(out)@ + data_payload(self@.piece, self@.data),
    {
        proof {
            use_type_invariant(self);
        }
        let data = as_slice(&self.data);
        write_dict_head(out, DATA_MESSAGE_TYPE, self.piece);
        write_all(out, size_key_text().as_slice());
        write_decimal(out, data.len() as u32);
        write_dict_close(out);
        write_all(out, data);
        assert(out@ =~= old(out)@ + data_payload(self@.piece, self@.data));
    }

    /// The length of the extension's payload for the message.
    pub fn message_size(&self) -> (n: usize)
        ensures
            n == data_payload(self@.piece, self@.data).len(),
            data_fits(self@.piece, self@.data),
    {
        proof {
            use_type_invariant(self);
        }
        let len = self.data.len();
        39 + decimal_len(self.piece) + decimal_len(len as u32) + len
    }
}

/// What a metadata message says.
pub enum UtMetadataView {
    Request(UtMetadataRequestMessage),
    Data(UtMetadataDataView),
    Reject(UtMetadataRejectMessage),
}

/// The extension's payload for a metadata message.
pub open spec fn ut_metadata_payload(message: UtMetadataView) -> Seq<u8> {
    match message {
        UtMetadataView::Request(request) => request.payload(),
        UtMetadataView::Data(data) => data_payload(data.piece, data.data),
        UtMetadataView::Reject(reject) => reject.payload(),
    }
}

/// Tells whether a metadata message can be framed.
pub open spec fn ut_metadata_fits(message: UtMetadataView) -> bool {
    match message {
        UtMetadataView::Data(data) => data_fits(data.piece, data.data),
        _ => true,
    }
}

/// The data message that a payload stands for, once message type and piece
/// are read and `at` is behind the piece number: the dictionary goes on with
/// the size of the block and closes, and all that follows is the block, which
/// must be as long as the dictionary says.
pub open spec fn spec_parse_data_tail(payload: Seq<u8>, piece: u32, at: int) -> Result<
    UtMetadataView,
    MessageError,
> {
    if has_text_at(payload, at, size_key()) {
        match spec_read_decimal(payload, at + 15) {
            Some((size, end)) => {
                let data = payload.subrange(end + 2, payload.len() as int);
                if !has_text_at(payload, end, dict_close()) || payload.len() != end + 2 + size {
                    Err(MessageError::Malformed)
                } else if !data_fits(piece, data) {
                    Err(MessageError::LengthOutOfRange)
                } else {
                    Ok(UtMetadataView::Data(UtMetadataDataView { piece, data }))
                }
            },
            None => Err(MessageError::Malformed),
        }
    } else {
        Err(MessageError::Malformed)
    }
}

/// The metadata message that an extension payload stands for: a dictionary
/// of message type and piece, in that order and with no other key, which for
/// a request or a reject is the whole payload.
pub open spec fn spec_parse_ut_metadata(payload: Seq<u8>) -> Result<UtMetadataView, MessageError> {
    if has_text_at(payload, 0, dict_open()) && has_text_at(payload, 13, piece_key()) {
        match spec_read_decimal(payload, 22) {
            Some((piece, end)) => {
                let closes = has_text_at(payload, end, dict_close()) && payload.len() == end + 2;
                if payload[12] == REQUEST_MESSAGE_TYPE && closes {
                    Ok(UtMetadataView::Request(UtMetadataRequestMessage { piece }))
                } else if payload[12] == REJECT_MESSAGE_TYPE && closes {
                    Ok(UtMetadataView::Reject(UtMetadataRejectMessage { piece }))
                } else if payload[12] == DATA_MESSAGE_TYPE {
                    spec_parse_data_tail(payload, piece, end)
                } else {
                    Err(MessageError::Malformed)
                }
            },
            None => Err(MessageError::Malformed),
        }
    } else {
        Err(MessageError::Malformed)
    }
}

/// A message of the metadata exchange.
#[derive(Debug, PartialEq, Eq)]
pub enum UtMetadataMessage {
    Request(UtMetadataRequestMessage),
    Data(UtMetadataDataMessage),
    Reject(UtMetadataRejectMessage),
}

impl Clone for UtMetadataMessage {
    fn clone(&self) -> (copy: UtMetadataMessage)
        ensures
            copy@ == self@,
    {
        match self {
            UtMetadataMessage::Request(request) => UtMetadataMessage::Request(*request),
            UtMetadataMessage::Data(data) => UtMetadataMessage::Data(data.clone()),
            UtMetadataMessage::Reject(reject) => UtMetadataMessage::Reject(*reject),
        }
    }
}

impl View for UtMetadataMessage {
    type V = UtMetadataView;

    open spec fn view(&self) -> UtMetadataView {
        match self {
            UtMetadataMessage::Request(request) => UtMetadataView::Request(*request),
            UtMetadataMessage::Data(data) => UtMetadataView::Data(data@),
            UtMetadataMessage::Reject(reject) => UtMetadataView::Reject(*reject),
        }
    }
}

impl UtMetadataMessage {
    /// Decodes the extension's payload.
    pub fn parse_bytes(payload: Bytes) -> (r: Result<UtMetadataMessage, MessageError>)
        ensures
            match r {
                Ok(m) => spec_parse_ut_metadata(contents(payload)) == Ok::<
                    UtMetadataView,
                    MessageError,
                >(m@),
                Err(e) => spec_parse_ut_metadata(contents(payload)) == Err::<
                    UtMetadataView,
                    MessageError,
                >(e),
            },
    {
        let bytes = as_slice(&payload);
        if !starts_with_at(bytes, 0, dict_open_text().as_slice()) || !starts_with_at(
            bytes,
            13,
            piece_key_text().as_slice(),
        ) {
            return Err(MessageError::Malformed);
        }
        let msg_type = bytes[12];
        match read_decimal(bytes, 22) {
            Some((piece, end)) => {
                let closes = starts_with_at(bytes, end, dict_close_text().as_slice())
                    && bytes.len() - end == 2;
                if msg_type == REQUEST_MESSAGE_TYPE && closes {
                    Ok(UtMetadataMessage::Request(UtMetadataRequestMessage { piece }))
                } else if msg_type == REJECT_MESSAGE_TYPE && closes {
                    Ok(UtMetadataMessage::Reject(UtMetadataRejectMessage { piece }))
                } else if msg_type == DATA_MESSAGE_TYPE {
                    UtMetadataMessage::parse_data_tail(&payload, piece, end)
                } else {
                    Err(MessageError::Malformed)
                }
            },
            None => Err(MessageError::Malformed),
        }
    }

    fn parse_data_tail(payload: &Bytes, piece: u32, at: usize) -> (r: Result<
        UtMetadataMessage,
        MessageError,
    >)
        ensures
            match r {
                Ok(m) => spec_parse_data_tail(contents(*payload), piece, at as int) == Ok::<
                    UtMetadataView,
                    MessageError,
                >(m@),
                Err(e) => spec_parse_data_tail(contents(*payload), piece, at as int) == Err::<
                    UtMetadataView,
                    MessageError,
                >(e),
            },
    {
        let bytes = as_slice(payload);
        let total = bytes.len();
        if !starts_with_at(bytes, at, size_key_text().as_slice()) {
            return Err(MessageError::Malformed);
        }
        match read_decimal(bytes, at + 15) {
            Some((size, end)) => {
                if !starts_with_at(bytes, end, dict_close_text().as_slice()) {
                    return Err(MessageError::Malformed);
                }
                if (total - end - 2) as u64 != size as u64 {
                    return Err(MessageError::Malformed);
                }
                let data = payload.slice(end + 2, total);
                match UtMetadataDataMessage::new(piece, data) {
                    Ok(message) => Ok(UtMetadataMessage::Data(message)),
                    Err(e) => Err(e),
                }
            },
            None => Err(MessageError::Malformed),
        }
    }

    /// Appends the extension's payload for the message.
    pub fn write_bytes(&self, out: &mut Vec<u8>)
        ensures
            final(out)@ == old(out)@ + ut_metadata_payload(self@),
    {
        match self {
            UtMetadataMessage::Request(request) => request.write_bytes(out),
            UtMetadataMessage::Data(data) => data.write_bytes(out),
            UtMetadataMessage::Reject(reject) => reject.write_bytes(out),
        }
    }

    /// The length of the extension's payload for the message.
    pub fn message_size(&self) -> (n: usize)
        ensures
            n == ut_metadata_payload(self@).len(),
            ut_metadata_fits(self@),
            extension_payload_fits(ut_metadata_payload(self@)),
    {
        match self {
            UtMetadataMessage::Request(request) => request.message_size(),
            UtMetadataMessage::Data(data) => data.message_size(),
            UtMetadataMessage::Reject(reject) => reject.message_size(),
        }
    }
}

/// What a message of an unknown extension says: the extension's id as the
/// peer sent it, and the payload as it came.
pub struct UnrecognizedView {
    pub id: u8,
    pub payload: Seq<u8>,
}

/// Tells whether a payload can be framed as an extension message.
pub open spec fn extension_payload_fits(payload: Seq<u8>) -> bool {
    frame_fits(BASE_PROT_EXTENSION_MESSAGE_LEN as nat + payload.len())
}

/// A message of an extension that the negotiated table does not know, kept
/// as it came.
///
/// Every value can be framed.
#[derive(Debug, PartialEq, Eq)]
pub struct UnrecognizedMessage {
    id: u8,
    payload: Bytes,
}

impl View for UnrecognizedMessage {
    type V = UnrecognizedView;

    closed spec fn view(&self) -> UnrecognizedView {
        UnrecognizedView { id: self.id, payload: contents(self.payload) }
    }
}

impl Clone for UnrecognizedMessage {
    fn clone(&self) -> (copy: UnrecognizedMessage)
        ensures
            copy@ == self@,
    {
        proof {
            use_type_invariant(self);
        }
        UnrecognizedMessage { id: self.id, payload: self.payload.clone() }
    }
}

impl UnrecognizedMessage {
    #[verifier::type_invariant]
    spec fn framed(&self) -> bool {
        extension_payload_fits(contents(self.payload))
    }

    /// Makes a message of an unknown extension, unless the payload is too
    /// long for a frame.
    pub fn new(id: u8, payload: Bytes) -> (r: Result<UnrecognizedMessage, MessageError>)
        ensures
            match r {
                Ok(m) => extension_payload_fits(contents(payload)) && m@ == (UnrecognizedView {
                    id,
                    payload: contents(payload),
                }),
                Err(e) => !extension_payload_fits(contents(payload)) && e
                    == MessageError::LengthOutOfRange,
            },
    {
        if fits_frame(BASE_PROT_EXTENSION_MESSAGE_LEN, payload.len()) {
            Ok(UnrecognizedMessage { id, payload })
        } else {
            Err(MessageError::LengthOutOfRange)
        }
    }

    /// The extension's id as the peer sent it.
    pub fn id(&self) -> (id: u8)
        ensures
            id == self@.id,
    {
        self.id
    }

    /// The payload as it came.
    pub fn payload(&self) -> (bytes: &Bytes)
        ensures
            contents(*bytes) == self@.payload,
            extension_payload_fits(self@.payload),
    {
        proof {
            use_type_invariant(self);
        }
        &self.payload
    }
}

/// What a message of the extension protocol says.
pub enum ProtExtView {
    UtMetadata(UtMetadataView),
    Unrecognized(UnrecognizedView),
}

/// The extension's own payload for a message.
pub open spec fn prot_ext_payload(message: ProtExtView) -> Seq<u8> {
    match message {
        ProtExtView::UtMetadata(inner) => ut_metadata_payload(inner),
        ProtExtView::Unrecognized(inner) => inner.payload,
    }
}

/// Tells whether a message can be framed.
pub open spec fn prot_ext_fits(message: ProtExtView) -> bool {
    match message {
        ProtExtView::UtMetadata(inner) => ut_metadata_fits(inner),
        ProtExtView::Unrecognized(inner) => extension_payload_fits(inner.payload),
    }
}

/// The extension id that a message is sent under: for a known extension the
/// id that the negotiated table holds for it, if any; for an unknown one the
/// id that the message carries.
pub open spec fn prot_ext_id(message: ProtExtView, extended: Option<ExtendedMessage>) -> Option<u8> {
    match message {
        ProtExtView::UtMetadata(_) => resolve_id(extended, ExtendedType::UtMetadata),
        ProtExtView::Unrecognized(inner) => Some(inner.id),
    }
}

/// The frame of an extension message: length prefix, the id byte of the
/// extension protocol, the extension's id, and the extension's payload.
pub open spec fn extension_frame(id: u8, payload: Seq<u8>) -> Seq<u8> {
    frame_header(
        (BASE_PROT_EXTENSION_MESSAGE_LEN + payload.len()) as u32,
        EXTENDED_MESSAGE_ID,
    ).push(id) + payload
}

/// The reading of a whole frame by the extension protocol's tier: `None`
/// where the id byte is not the extension protocol's; else the failure of a
/// frame that has no room for an extension id or is not as long as its
/// length prefix says; else what the extension that the negotiated table
/// knows under the id reads in the payload; and for an id that the table
/// does not know, the catch-all, if the host can index such a frame.
pub open spec fn spec_parse_prot_ext(frame: Seq<u8>, extended: Option<ExtendedMessage>) -> Option<
    Result<ProtExtView, MessageError>,
> {
    if frame.len() >= 5 && frame[4] == EXTENDED_MESSAGE_ID {
        let length = be_u32_value(frame);
        let payload = frame.subrange(6, frame.len() as int);
        Some(
            if length < BASE_PROT_EXTENSION_MESSAGE_LEN || frame.len() != 4 + length {
                Err(MessageError::Malformed)
            } else {
                match resolve_type(extended, frame[5]) {
                    Some(ExtendedType::UtMetadata) => match spec_parse_ut_metadata(payload) {
                        Ok(inner) => Ok(ProtExtView::UtMetadata(inner)),
                        Err(e) => Err(e),
                    },
                    None => if extension_payload_fits(payload) {
                        Ok(ProtExtView::Unrecognized(UnrecognizedView { id: frame[5], payload }))
                    } else {
                        Err(MessageError::LengthOutOfRange)
                    },
                }
            },
        )
    } else {
        None
    }
}

/// A message of the extension protocol.
#[derive(Debug, PartialEq, Eq)]
pub enum PeerExtensionProtocolMessage {
    /// A message of the metadata exchange.
    UtMetadata(UtMetadataMessage),
    /// A message of an extension that the negotiated table does not know.
    Unrecognized(UnrecognizedMessage),
}

impl Clone for PeerExtensionProtocolMessage {
    fn clone(&self) -> (copy: PeerExtensionProtocolMessage)
        ensures
            copy@ == self@,
    {
        match self {
            PeerExtensionProtocolMessage::UtMetadata(inner) => {
                PeerExtensionProtocolMessage::UtMetadata(inner.clone())
            },
            PeerExtensionProtocolMessage::Unrecognized(inner) => {
                PeerExtensionProtocolMessage::Unrecognized(inner.clone())
            },
        }
    }
}

impl View for PeerExtensionProtocolMessage {
    type V = ProtExtView;

    open spec fn view(&self) -> ProtExtView {
        match self {
            PeerExtensionProtocolMessage::UtMetadata(inner) => ProtExtView::UtMetadata(inner@),
            PeerExtensionProtocolMessage::Unrecognized(inner) => ProtExtView::Unrecognized(inner@),
        }
    }
}

impl PeerExtensionProtocolMessage {
    /// Reads a whole frame as a message of the extension protocol.
    pub fn parse_bytes(frame: Bytes, extended: &Option<ExtendedMessage>) -> (r: Option<
        Result<PeerExtensionProtocolMessage, MessageError>,
    >)
        ensures
            match r {
                Some(Ok(m)) => spec_parse_prot_ext(contents(frame), *extended) == Some(
                    Ok::<ProtExtView, MessageError>(m@),
                ),
                Some(Err(e)) => spec_parse_prot_ext(contents(frame), *extended) == Some(
                    Err::<ProtExtView, MessageError>(e),
                ),
                None => spec_parse_prot_ext(contents(frame), *extended) is None,
            },
    {
        let mut header = frame;
        let bytes = as_slice(&header);
        let total = bytes.len();
        let length = match (read_u32(bytes, 0), read_u8(bytes, 4)) {
            (Some(length), Some(id)) => {
                if id != EXTENDED_MESSAGE_ID {
                    return None;
                }
                length
            },
            _ => { return None; },
        };
        assert(be_u32_value(bytes@.subrange(0, 4)) == be_u32_value(bytes@));
        if length < BASE_PROT_EXTENSION_MESSAGE_LEN || total as u64 != 4 + length as u64 {
            return Some(Err(MessageError::Malformed));
        }
        let id = bytes[5];
        let payload = header.split_off(6);
        let known = match extended {
            Some(table) => table.query_type(id),
            None => None,
        };
        Some(
            match known {
                Some(ExtendedType::UtMetadata) => match UtMetadataMessage::parse_bytes(payload) {
                    Ok(inner) => Ok(PeerExtensionProtocolMessage::UtMetadata(inner)),
                    Err(e) => Err(e),
                },
                None => match UnrecognizedMessage::new(id, payload) {
                    Ok(inner) => Ok(PeerExtensionProtocolMessage::Unrecognized(inner)),
                    Err(e) => Err(e),
                },
            },
        )
    }

    /// Appends the frame of the message, under the extension id that the
    /// negotiated table gives; without such an id nothing is written.
    pub fn write_bytes(&self, out: &mut Vec<u8>, extended: &Option<ExtendedMessage>) -> (r: Result<
        (),
        MessageError,
    >)
        ensures
            match r {
                Ok(_) => prot_ext_id(self@, *extended) matches Some(id) && final(out)@ == old(out)@
                    + extension_frame(id, prot_ext_payload(self@)),
                Err(e) => e == MessageError::UnresolvedExtension && prot_ext_id(self@, *extended)
                    is None && final(out)@ == old(out)@,
            },
            prot_ext_fits(self@),
    {
        let size = self.message_size();
        let length: u32 = BASE_PROT_EXTENSION_MESSAGE_LEN + size as u32;
        match self {
            PeerExtensionProtocolMessage::UtMetadata(inner) => {
                let id = match extended {
                    Some(table) => table.query_id(ExtendedType::UtMetadata),
                    None => None,
                };
                match id {
                    Some(id) => {
                        write_length_id_pair(out, length, Some(EXTENDED_MESSAGE_ID));
                        out.push(id);
                        inner.write_bytes(out);
                        assert(out@ =~= old(out)@ + extension_frame(id, prot_ext_payload(self@)));
                        Ok(())
                    },
                    None => Err(MessageError::UnresolvedExtension),
                }
            },
            PeerExtensionProtocolMessage::Unrecognized(inner) => {
                write_length_id_pair(out, length, Some(EXTENDED_MESSAGE_ID));
                out.push(inner.id());
                write_all(out, as_slice(inner.payload()));
                assert(out@ =~= old(out)@ + extension_frame(inner@.id, prot_ext_payload(self@)));
                Ok(())
            },
        }
    }

    /// The length of the extension's own payload for the message.
    pub fn message_size(&self) -> (n: usize)
        ensures
            n == prot_ext_payload(self@).len(),
            prot_ext_fits(self@),
            extension_payload_fits(prot_ext_payload(self@)),
    {
        match self {
            PeerExtensionProtocolMessage::UtMetadata(inner) => inner.message_size(),
            PeerExtensionProtocolMessage::Unrecognized(inner) => inner.payload().len(),
        }
    }
}

} // verus!
