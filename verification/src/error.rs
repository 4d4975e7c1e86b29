//! The ways in which encoding and decoding fail.

use vstd::prelude::*;

verus! {

/// Why an encoding or decoding operation was refused.
#[derive(Clone, Copy, Debug, PartialEq, Eq, Structural)]
pub enum CodecError {
    /// A character of the input is not in the alphabet.
    InvalidCharacter,
    /// A field value is larger than the maximum declared for it.
    ValueOutOfRange,
    /// The number was not used up after the last field had been extracted,
    /// or there is not one value for each field.
    SchemaMismatch,
    /// The checksum blob does not fit the units it is held against.
    InconsistentChecksum,
    /// The container lacks a section or an entry that a bank must have.
    MissingEntry,
}

} // verus!
