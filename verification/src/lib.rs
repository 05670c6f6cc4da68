//! Wire-level message layer of a BitTorrent-style peer protocol: sizing a
//! frame from a partial buffer, decoding a whole frame into one message, and
//! encoding a message into the bytes that a peer expects.

pub mod bencode;
pub mod bits_ext;
pub mod buffer;
pub mod correctness;
pub mod error;
pub mod message;
pub mod prot_ext;
pub mod standard;
pub mod wire;

pub use bits_ext::{
    BitsExtensionMessage, ExtendedMessage, ExtendedMessageBuilder, ExtendedType, PortMessage,
};
pub use error::MessageError;
pub use message::PeerWireProtocolMessage;
pub use prot_ext::{
    PeerExtensionProtocolMessage, UnrecognizedMessage, UtMetadataDataMessage, UtMetadataMessage,
    UtMetadataRejectMessage, UtMetadataRequestMessage,
};
pub use standard::{BitFieldMessage, CancelMessage, HaveMessage, PieceMessage, RequestMessage};
