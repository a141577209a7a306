//! Failures that the library reports to its callers.

use vstd::prelude::*;

verus! {

/// Why an operation on bytes was refused.
#[derive(Clone, Copy, Debug, PartialEq, Eq, Structural)]
pub enum Error {
    /// The bytes are not an envelope: cut short, of another wire version,
    /// with a kind tag out of range, or with a payload that its kind does
    /// not allow.
    MalformedEnvelope,
    /// A field is too long for its length prefix, so the value has no
    /// written form.
    TooLarge,
    /// The bytes do not start with a snapshot header of this format.
    BadSnapshotHeader,
    /// The snapshot was written in a format version that is not read here.
    UnsupportedSnapshotVersion,
    /// The header is in order but a section or a record is cut short or
    /// holds an envelope that does not decode or does not belong there.
    MalformedSnapshot,
}

} // verus!
