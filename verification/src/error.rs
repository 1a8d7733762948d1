//! The error taxonomy of the store operations, as surfaced to the tool
//! caller.
use vstd::prelude::*;

use crate::storage::CodecError;

verus! {

/// Why a store operation failed.
#[derive(Debug, Clone, Copy, PartialEq, Eq, Structural)]
pub enum Error {
    /// The named label is not in the index.
    UnknownLabel,
    /// The new label is already taken.
    LabelExists,
    /// The two labels of a rename are the same.
    SameName,
    /// The key material is neither bech32 (`nsec1…`/`npub1…`) nor 64-char
    /// hex.
    UnsupportedMaterial,
    /// An operation that needs a signer ran without an active identity.
    NoActiveKey,
    /// The keyring has no secret for the label.
    SecretMissing,
    /// The OS secret store failed (other than a missing entry).
    Keyring,
    /// The envelope codec failed.
    Codec(CodecError),
    /// An unexpected failure in a library the store builds on.
    Internal,
}

} // verus!
