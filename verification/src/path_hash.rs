//! Hashes of paths, which stand for the paths in the history.

use vstd::prelude::*;
use crate::text::hex_encode;

verus! {

/// The SHA-256 digest of some bytes.
pub uninterp spec fn sha256_of(bytes: Seq<u8>) -> Seq<u8>;

/// `sha2::Sha256::digest` hashes the bytes in one go. The digest depends on the bytes alone and
/// has thirty-two of them.
#[verifier::external_body]
fn sha256(bytes: &[u8]) -> (r: Vec<u8>)
    ensures
        r@ == sha256_of(bytes@),
        r@.len() == 32,
{
    <sha2::Sha256 as sha2::Digest>::digest(bytes).to_vec()
}

/// The bytes that a path is hashed by: those of its canonical form where there is one.
pub open spec fn hashed_bytes(canonical: Option<Seq<u8>>, raw: Seq<u8>) -> Seq<u8> {
    match canonical {
        Some(bytes) => bytes,
        None => raw,
    }
}

/// The hash of a path, in lower case hexadecimal. A path that cannot be brought to its canonical
/// form, because nothing is there any more, is hashed as it stands.
pub fn path_hash(canonical: Option<&[u8]>, raw: &[u8]) -> (r: String)
    ensures
        r@ == crate::text::hex_of(
            sha256_of(
                hashed_bytes(
                    match canonical {
                        Some(bytes) => Some(bytes@),
                        None => None,
                    },
                    raw@,
                ),
            ),
        ),
        r@.len() == 64,
        forall|i: int| 0 <= i < r@.len() ==> is_lower_hex(#[trigger] r@[i]),
{
    let bytes: &[u8] = match canonical {
        Some(bytes) => bytes,
        None => raw,
    };
    let digest = sha256(bytes);
    let out = hex_encode(digest.as_slice());
    proof {
        lemma_hex_shape(digest@);
    }
    out
}

/// A hexadecimal digit in lower case.
pub open spec fn is_lower_hex(c: char) -> bool {
    '0' <= c <= '9' || 'a' <= c <= 'f'
}

/// Hexadecimal text has two lower case digits for each byte.
pub proof fn lemma_hex_shape(bytes: Seq<u8>)
    ensures
        crate::text::hex_of(bytes).len() == 2 * bytes.len(),
        forall|i: int|
            0 <= i < crate::text::hex_of(bytes).len() ==> is_lower_hex(
                #[trigger] crate::text::hex_of(bytes)[i],
            ),
    decreases bytes.len(),
{
    if bytes.len() > 0 {
        lemma_hex_shape(bytes.drop_last());
        let rest = crate::text::hex_of(bytes.drop_last());
        assert forall|i: int| 0 <= i < crate::text::hex_of(bytes).len() implies is_lower_hex(
            #[trigger] crate::text::hex_of(bytes)[i],
        ) by {
            if i < rest.len() {
                assert(crate::text::hex_of(bytes)[i] == rest[i]);
            }
        }
    }
}

/// Hexadecimal text tells any two byte strings apart: paths with different digests have
/// different hashes.
pub proof fn hex_is_injective(a: Seq<u8>, b: Seq<u8>)
    requires
        crate::text::hex_of(a) == crate::text::hex_of(b),
    ensures
        a == b,
    decreases a.len(),
{
    lemma_hex_shape(a);
    lemma_hex_shape(b);
    if a.len() > 0 {
        let x = crate::text::hex_of(a);
        let y = crate::text::hex_of(b);
        let m = crate::text::hex_of(a.drop_last());
        let n = crate::text::hex_of(b.drop_last());
        lemma_hex_shape(a.drop_last());
        lemma_hex_shape(b.drop_last());
        assert(m =~= x.take(x.len() - 2));
        assert(n =~= y.take(y.len() - 2));
        hex_is_injective(a.drop_last(), b.drop_last());
        assert(x[x.len() - 2] == crate::text::hex_digit((a.last() / 16) as nat, false));
        assert(y[y.len() - 2] == crate::text::hex_digit((b.last() / 16) as nat, false));
        assert(x[x.len() - 1] == crate::text::hex_digit((a.last() % 16) as nat, false));
        assert(y[y.len() - 1] == crate::text::hex_digit((b.last() % 16) as nat, false));
        assert(a.last() / 16 == b.last() / 16);
        assert(a.last() % 16 == b.last() % 16);
        assert(a =~= a.drop_last().push(a.last()));
        assert(b =~= b.drop_last().push(b.last()));
    } else {
        assert(a =~= b);
    }
}

} // verus!
