//! SHA-256 digests as lowercase hex, from the sha256 crate.
use vstd::prelude::*;

verus! {

/// The lowercase hex SHA-256 digest of the UTF-8 encoding of `s`.
pub uninterp spec fn sha256_hex(s: Seq<char>) -> Seq<char>;

pub open spec fn is_lower_hex_digit(c: char) -> bool {
    ('0' <= c && c <= '9') || ('a' <= c && c <= 'f')
}

/// Relies on `sha256::digest` for a `&String`: `hex::encode` of the 32-byte
/// SHA-256 output of the string's bytes, so 64 lowercase hex digits that
/// depend on the string alone.
#[verifier::external_body]
pub(crate) fn sha256_digest(s: &String) -> (r: String)
    ensures
        r@ == sha256_hex(s@),
        r@.len() == 64,
        forall|i: int| 0 <= i < 64 ==> is_lower_hex_digit(#[trigger] r@[i]),
{
    sha256::digest(s)
}

} // verus!
