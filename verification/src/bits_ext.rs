//! Messages unlocked by reserved handshake bits, and the table of extensions
//! that a handshake negotiated.

use crate::buffer::{as_slice, contents};
use crate::error::MessageError;
use crate::standard::{frame_header, write_length_id_pair};
use crate::wire::{be_u16_bytes, be_u16_value, be_u32_value, read_u16, read_u32, read_u8, write_u16};
use bytes::Bytes;
use vstd::prelude::*;

verus! {

pub const PORT_MESSAGE_LEN: u32 = 3;

pub const PORT_MESSAGE_ID: u8 = 9;

/// Announces the port on which the sender's distributed hash table node listens.
#[derive(Clone, Copy, Debug, PartialEq, Eq, Structural)]
pub struct PortMessage {
    pub listen_port: u16,
}

impl PortMessage {
    /// The message that a payload stands for: exactly two bytes, the port.
    pub open spec fn spec_parse(payload: Seq<u8>) -> Result<PortMessage, MessageError> {
        if payload.len() == 2 {
            Ok(PortMessage { listen_port: be_u16_value(payload) })
        } else {
            Err(MessageError::Malformed)
        }
    }

    /// The frame of the message.
    pub open spec fn frame(self) -> Seq<u8> {
        frame_header(PORT_MESSAGE_LEN, PORT_MESSAGE_ID) + be_u16_bytes(self.listen_port)
    }

    pub fn new(listen_port: u16) -> (m: PortMessage)
        ensures
            m.listen_port == listen_port,
    {
        PortMessage { listen_port }
    }

    pub fn listen_port(&self) -> (port: u16)
        ensures
            port == self.listen_port,
    {
        self.listen_port
    }

    /// Decodes the payload of a port frame.
    pub fn parse_bytes(payload: Bytes) -> (r: Result<PortMessage, MessageError>)
        ensures
            r == PortMessage::spec_parse(contents(payload)),
    {
        let bytes = as_slice(&payload);
        if bytes.len() != 2 {
            return Err(MessageError::Malformed);
        }
        match read_u16(bytes, 0) {
            Some(listen_port) => {
                assert(bytes@.subrange(0, 2) =~= bytes@);
                Ok(PortMessage { listen_port })
            },
            None => Err(MessageError::Malformed),
        }
    }

    /// Appends the frame of the message.
    pub fn write_bytes(&self, out: &mut Vec<u8>)
        ensures
            final(out)@ == old(out)@ + self.frame(),
    {
        write_length_id_pair(out, PORT_MESSAGE_LEN, Some(PORT_MESSAGE_ID));
        write_u16(out, self.listen_port);
        assert(out@ =~= old(out)@ + self.frame());
    }
}

/// The messages that reserved handshake bits unlock.
#[derive(Clone, Copy, Debug, PartialEq, Eq, Structural)]
pub enum BitsExtensionMessage {
    /// The sender's distributed hash table port.
    Port(PortMessage),
}

/// Tells whether a length prefix and id open a frame of this tier.
pub open spec fn bits_ext_entry(length: u32, id: Option<u8>) -> bool {
    length == PORT_MESSAGE_LEN && id == Some(PORT_MESSAGE_ID)
}

impl BitsExtensionMessage {
    /// The reading of a whole frame by this tier: `None` where the header is
    /// not one of the tier's own, else the message, or the failure of a frame
    /// that is not as long as its header says.
    pub open spec fn spec_parse(frame: Seq<u8>) -> Option<
        Result<BitsExtensionMessage, MessageError>,
    > {
        if frame.len() >= 5 && bits_ext_entry(be_u32_value(frame), Some(frame[4])) {
            Some(
                match PortMessage::spec_parse(frame.subrange(5, frame.len() as int)) {
                    Ok(port) => Ok(BitsExtensionMessage::Port(port)),
                    Err(e) => Err(e),
                },
            )
        } else {
            None
        }
    }

    /// The frame of the message.
    pub open spec fn frame(self) -> Seq<u8> {
        match self {
            BitsExtensionMessage::Port(port) => port.frame(),
        }
    }

    /// The value that the length prefix of the message's frame carries.
    pub open spec fn spec_message_size(self) -> nat {
        match self {
            BitsExtensionMessage::Port(_) => PORT_MESSAGE_LEN as nat,
        }
    }

    /// Reads a whole frame as a message of this tier.
    pub fn parse_bytes(frame: Bytes) -> (r: Option<Result<BitsExtensionMessage, MessageError>>)
        ensures
            r == BitsExtensionMessage::spec_parse(contents(frame)),
    {
        let mut header = frame;
        let bytes = as_slice(&header);
        match (read_u32(bytes, 0), read_u8(bytes, 4)) {
            (Some(length), Some(id)) => {
                assert(be_u32_value(bytes@.subrange(0, 4)) == be_u32_value(bytes@));
                if length == PORT_MESSAGE_LEN && id == PORT_MESSAGE_ID {
                    let payload = header.split_off(5);
                    Some(
                        match PortMessage::parse_bytes(payload) {
                            Ok(port) => Ok(BitsExtensionMessage::Port(port)),
                            Err(e) => Err(e),
                        },
                    )
                } else {
                    None
                }
            },
            _ => None,
        }
    }

    /// Appends the frame of the message.
    pub fn write_bytes(&self, out: &mut Vec<u8>)
        ensures
            final(out)@ == old(out)@ + self.frame(),
    {
        match self {
            BitsExtensionMessage::Port(port) => port.write_bytes(out),
        }
    }

    /// The value that the length prefix of the message's frame carries.
    pub fn message_size(&self) -> (n: usize)
        ensures
            n == self.spec_message_size(),
            self.frame().len() == 4 + n,
    {
        match self {
            BitsExtensionMessage::Port(_) => PORT_MESSAGE_LEN as usize,
        }
    }
}

/// The extensions that this layer knows by name.
#[derive(Clone, Copy, Debug, PartialEq, Eq, Structural)]
pub enum ExtendedType {
    /// Exchange of torrent metadata between peers.
    UtMetadata,
}

/// What an extension handshake negotiated: for each known extension the id
/// under which the remote peer expects its messages, and the metadata size
/// that the peer advertised.
///
/// A value is a snapshot: nothing changes it once it is built.
#[derive(Clone, Copy, Debug, PartialEq, Eq, Structural)]
pub struct ExtendedMessage {
    ut_metadata_id: Option<u8>,
    metadata_size: Option<u32>,
}

impl ExtendedMessage {
    /// The id that the table holds for an extension.
    pub closed spec fn spec_query_id(&self, ext_type: ExtendedType) -> Option<u8> {
        match ext_type {
            ExtendedType::UtMetadata => self.ut_metadata_id,
        }
    }

    /// The extension that the table knows under an id.
    pub open spec fn spec_query_type(&self, id: u8) -> Option<ExtendedType> {
        if self.spec_query_id(ExtendedType::UtMetadata) == Some(id) {
            Some(ExtendedType::UtMetadata)
        } else {
            None
        }
    }

    /// The metadata size that the peer advertised.
    pub closed spec fn spec_metadata_size(&self) -> Option<u32> {
        self.metadata_size
    }

    /// Looks up the id under which the peer expects an extension's messages.
    #[verifier::when_used_as_spec(spec_query_id)]
    pub fn query_id(&self, ext_type: ExtendedType) -> (id: Option<u8>)
        ensures
            id == self.spec_query_id(ext_type),
    {
        match ext_type {
            ExtendedType::UtMetadata => self.ut_metadata_id,
        }
    }

    /// Looks up the extension that an id stands for.
    #[verifier::when_used_as_spec(spec_query_type)]
    pub fn query_type(&self, id: u8) -> (ext_type: Option<ExtendedType>)
        ensures
            ext_type == self.spec_query_type(id),
    {
        match self.ut_metadata_id {
            Some(known) if known == id => Some(ExtendedType::UtMetadata),
            _ => None,
        }
    }

    /// The metadata size that the peer advertised, if it advertised one.
    #[verifier::when_used_as_spec(spec_metadata_size)]
    pub fn metadata_size(&self) -> (size: Option<u32>)
        ensures
            size == self.spec_metadata_size(),
    {
        self.metadata_size
    }
}

/// The id that a negotiation context, if there is one, holds for an extension.
pub open spec fn resolve_id(extended: Option<ExtendedMessage>, ext_type: ExtendedType) -> Option<
    u8,
> {
    match extended {
        Some(table) => table.spec_query_id(ext_type),
        None => None,
    }
}

/// The extension that a negotiation context, if there is one, knows under an id.
pub open spec fn resolve_type(extended: Option<ExtendedMessage>, id: u8) -> Option<ExtendedType> {
    match extended {
        Some(table) => table.spec_query_type(id),
        None => None,
    }
}

/// The two directions of a negotiated table agree: an id stands for an
/// extension exactly when the extension is listed under that id.
pub proof fn lemma_table_directions_agree(
    extended: Option<ExtendedMessage>,
    ext_type: ExtendedType,
    id: u8,
)
    ensures
        resolve_type(extended, id) == Some(ext_type) <==> resolve_id(extended, ext_type) == Some(
            id,
        ),
{
}

/// Collects what a handshake negotiated, then builds the snapshot.
#[derive(Clone, Copy, Debug, PartialEq, Eq, Structural)]
pub struct ExtendedMessageBuilder {
    ut_metadata_id: Option<u8>,
    metadata_size: Option<u32>,
}

impl ExtendedMessageBuilder {
    /// The id that the builder holds for an extension.
    pub closed spec fn spec_id(&self, ext_type: ExtendedType) -> Option<u8> {
        match ext_type {
            ExtendedType::UtMetadata => self.ut_metadata_id,
        }
    }

    /// The metadata size that the builder holds.
    pub closed spec fn spec_metadata_size(&self) -> Option<u32> {
        self.metadata_size
    }

    /// A builder that holds nothing.
    pub fn new() -> (b: ExtendedMessageBuilder)
        ensures
            forall|ext_type: ExtendedType| b.spec_id(ext_type) is None,
            b.spec_metadata_size() is None,
    {
        ExtendedMessageBuilder { ut_metadata_id: None, metadata_size: None }
    }

    /// Sets, or with `None` removes, the id of an extension.
    pub fn with_extended_type(self, ext_type: ExtendedType, id: Option<u8>) -> (b:
        ExtendedMessageBuilder)
        ensures
            b.spec_id(ext_type) == id,
            forall|other: ExtendedType| other != ext_type ==> b.spec_id(other) == self.spec_id(other),
            b.spec_metadata_size() == self.spec_metadata_size(),
    {
        match ext_type {
            ExtendedType::UtMetadata => ExtendedMessageBuilder {
                ut_metadata_id: id,
                metadata_size: self.metadata_size,
            },
        }
    }

    /// Sets, or with `None` removes, the advertised metadata size.
    pub fn with_metadata_size(self, size: Option<u32>) -> (b: ExtendedMessageBuilder)
        ensures
            b.spec_metadata_size() == size,
            forall|ext_type: ExtendedType| b.spec_id(ext_type) == self.spec_id(ext_type),
    {
        ExtendedMessageBuilder { ut_metadata_id: self.ut_metadata_id, metadata_size: size }
    }

    /// The snapshot of what the builder holds.
    pub fn build(self) -> (table: ExtendedMessage)
        ensures
            forall|ext_type: ExtendedType| table.spec_query_id(ext_type) == self.spec_id(ext_type),
            table.spec_metadata_size() == self.spec_metadata_size(),
    {
        ExtendedMessage { ut_metadata_id: self.ut_metadata_id, metadata_size: self.metadata_size }
    }
}

} // verus!
