//! Error kinds shared by the resolver and the protocol layer.

use vstd::prelude::*;
use vstd::string::StringExecFns;
use crate::nodehash::{hex_spec, NodeHash};
use crate::text::{ascii_chars, push_ascii};

verus! {

/// What went wrong, independent of where.
#[derive(Clone, Copy, Debug, PartialEq, Eq, Structural)]
pub enum ErrorKind {
    /// A path is empty, has an empty component or contains NUL.
    InvalidPath,
    /// Fragments overlap, are unordered or reach past the end of the base.
    InvalidDelta,
    /// A base is neither in the stream's cache nor in the repository.
    MissingBase,
    /// The backing store failed to read or write.
    StorageIO,
    /// Malformed wire input.
    ProtocolViolation,
    /// A broken invariant of the service itself.
    Internal,
}

/// The pair of nodes a delta was being applied for when it failed.
#[derive(Clone, Copy, Debug, PartialEq, Eq)]
pub struct DeltaContext {
    pub base: NodeHash,
    pub node: NodeHash,
}

/// An error with the context it was wrapped in before surfacing.
#[derive(Clone, Copy, Debug, PartialEq, Eq)]
pub struct Error {
    pub kind: ErrorKind,
    pub context: Option<DeltaContext>,
}

impl Error {
    /// An error of the given kind with no context.
    pub fn new(kind: ErrorKind) -> (e: Error)
        ensures
            e == (Error { kind, context: None }),
    {
        Error { kind, context: None }
    }

    /// An error of the given kind raised while applying the delta of `node`
    /// on top of `base`.
    pub fn while_applying(kind: ErrorKind, base: NodeHash, node: NodeHash) -> (e: Error)
        ensures
            e == (Error { kind, context: Some(DeltaContext { base, node }) }),
    {
        Error { kind, context: Some(DeltaContext { base, node }) }
    }
}

/// The sentence that an error is wrapped in when the delta of `node` could
/// not be applied on `base`, with both nodes in hexadecimal.
pub open spec fn context_text(context: DeltaContext) -> Seq<char> {
    "While looking for base "@ + ascii_chars(hex_spec(context.base.bytes@))
        + " to apply on delta "@ + ascii_chars(hex_spec(context.node.bytes@))
}

impl DeltaContext {
    /// The context in words.
    pub fn message(&self) -> (text: String)
        ensures
            text@ == context_text(*self),
    {
        let mut text = String::from_str("While looking for base ");
        push_ascii(&mut text, self.base.to_hex().as_slice());
        text.append(" to apply on delta ");
        push_ascii(&mut text, self.node.to_hex().as_slice());
        text
    }
}

} // verus!
