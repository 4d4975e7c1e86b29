//! The two outside functions behind the stamp: the SHA-1 digest of the
//! `sha1` crate and the hexadecimal encoding of the `base16ct` crate.

use vstd::prelude::*;
use sha1::Digest;
use sha1::Sha1;

verus! {

/// The SHA-1 digest of a message.
pub uninterp spec fn sha1_digest(message: Seq<u8>) -> Seq<u8>;

/// `Sha1::digest`: the SHA-1 digest of the message, which has 20 bytes.
#[verifier::external_body]
pub(crate) fn sha1_of(message: &[u8]) -> (digest: Vec<u8>)
    ensures
        digest@ == sha1_digest(message@),
        digest@.len() == 20,
{
    Sha1::digest(message).to_vec()
}

/// The sixteen digits of upper-case hexadecimal, in the order of their values.
pub open spec fn hex_digits() -> Seq<char> {
    seq!['0', '1', '2', '3', '4', '5', '6', '7', '8', '9', 'A', 'B', 'C', 'D', 'E', 'F']
}

/// Each byte written as two upper-case hexadecimal digits, the high half
/// first.
pub open spec fn spec_hex_upper(bytes: Seq<u8>) -> Seq<char> {
    Seq::new(
        2 * bytes.len(),
        |i: int|
            if i % 2 == 0 {
                hex_digits()[bytes[i / 2] as int / 16]
            } else {
                hex_digits()[bytes[i / 2] as int % 16]
            },
    )
}

/// `base16ct::upper::encode_string` writes each byte as two upper-case
/// hexadecimal digits. It panics on an input of more than `usize::MAX / 2`
/// bytes.
pub assume_specification[ base16ct::upper::encode_string ](input: &[u8]) -> (r: String)
    requires
        input@.len() <= usize::MAX / 2,
    ensures
        r@ == spec_hex_upper(input@),
;

} // verus!
