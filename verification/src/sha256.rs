//! SHA-256 digests of evidence bytes, rendered as lowercase hex.
use vstd::prelude::*;

verus! {

/// The lowercase-hex SHA-256 digest of `data`, as `gnucobol_rs::sha256::sha256_hex` computes it.
pub uninterp spec fn spec_sha256_hex(data: Seq<u8>) -> Seq<char>;

pub open spec fn is_lower_hex_char(c: char) -> bool {
    ('0' <= c && c <= '9') || ('a' <= c && c <= 'f')
}

/// Calls `gnucobol_rs::sha256::sha256_hex` (FIPS 180-4 SHA-256 over `data`). Trusted claims: the
/// result is a function of `data` alone (`spec_sha256_hex`), and it is 64 characters, each a
/// lowercase hex digit (eight `{:08x}` renderings of the state words in that source). Nothing is
/// stated of which digest a given input has.
#[verifier::external_body]
pub(crate) fn sha256_hex(data: &[u8]) -> (r: String)
    ensures
        r@ == spec_sha256_hex(data@),
        r@.len() == 64,
        forall|i: int| 0 <= i < 64 ==> is_lower_hex_char(#[trigger] r@[i]),
{
    gnucobol_rs::sha256::sha256_hex(data)
}

} // verus!
