//! The failures of the message layer.

use vstd::prelude::*;

verus! {

/// Why a buffer could not be decoded or a message could not be encoded.
#[derive(Clone, Copy, Debug, PartialEq, Eq, Structural)]
pub enum MessageError {
    /// The header or payload matches no message grammar.
    Malformed,
    /// The negotiated extension table holds no id for the extension that a message belongs to.
    UnresolvedExtension,
    /// A length cannot be represented in the integer width that has to carry it.
    LengthOutOfRange,
}

} // verus!
