//! Reading BN254 scalar-field elements from their canonical serialization.
//! Each element is handed on as the 32 little-endian bytes of its canonical
//! integer representative.

use vstd::prelude::*;
use ark_bn254::Fr;
use ark_ff::{BigInteger, PrimeField};
use ark_serialize::CanonicalDeserialize;

verus! {

/// What `ark_serialize` reads from `bytes` as one BN254 scalar, given as the
/// little-endian bytes of its canonical representative; `None` when it
/// cannot read one.
pub uninterp spec fn fr_canonical_bytes(bytes: Seq<u8>) -> Option<Seq<u8>>;

/// What `ark_serialize` reads from `bytes` as a `Vec` of BN254 scalars, each
/// given as above.
pub uninterp spec fn fr_vec_canonical_bytes(bytes: Seq<u8>) -> Option<Seq<Seq<u8>>>;

/// What `ark_serialize` reads from `bytes` as a pair of BN254 scalars, each
/// given as above.
pub uninterp spec fn fr_pair_canonical_bytes(bytes: Seq<u8>) -> Option<(Seq<u8>, Seq<u8>)>;

/// `<Fr as CanonicalDeserialize>::deserialize` on `bytes`, then
/// `into_repr().to_bytes_le()`. Claimed: the result is the named one, and a
/// representative has 32 bytes (four 64-bit limbs, `to_bytes_le`).
#[verifier::external_body]
pub(crate) fn decode_fr(bytes: &[u8]) -> (r: Option<Vec<u8>>)
    ensures
        match r {
            Some(v) => fr_canonical_bytes(bytes@) == Some(v@) && v@.len() == 32,
            None => fr_canonical_bytes(bytes@) is None,
        },
{
    match Fr::deserialize(bytes) {
        Ok(f) => Some(f.into_repr().to_bytes_le()),
        Err(_) => None,
    }
}

/// `<Vec<Fr> as CanonicalDeserialize>::deserialize` on `bytes`, each element
/// then through `into_repr().to_bytes_le()`. Claimed: the result is the named
/// one, each element of 32 bytes.
#[verifier::external_body]
pub(crate) fn decode_fr_vec(bytes: &[u8]) -> (r: Option<Vec<Vec<u8>>>)
    ensures
        match r {
            Some(v) => fr_vec_canonical_bytes(bytes@) == Some(v@.map_values(|e: Vec<u8>| e@))
                && forall|i: int| 0 <= i < v@.len() ==> (#[trigger] v@[i])@.len() == 32,
            None => fr_vec_canonical_bytes(bytes@) is None,
        },
{
    match Vec::<Fr>::deserialize(bytes) {
        Ok(fs) => Some(fs.iter().map(|f| f.into_repr().to_bytes_le()).collect()),
        Err(_) => None,
    }
}

/// `<(Fr, Fr) as CanonicalDeserialize>::deserialize` on `bytes`, both
/// elements through `into_repr().to_bytes_le()`. Claimed: the result is the
/// named one, each of 32 bytes.
#[verifier::external_body]
pub(crate) fn decode_fr_pair(bytes: &[u8]) -> (r: Option<(Vec<u8>, Vec<u8>)>)
    ensures
        match r {
            Some(p) => fr_pair_canonical_bytes(bytes@) == Some((p.0@, p.1@)) && p.0@.len() == 32
                && p.1@.len() == 32,
            None => fr_pair_canonical_bytes(bytes@) is None,
        },
{
    match <(Fr, Fr)>::deserialize(bytes) {
        Ok((x, y)) => Some((x.into_repr().to_bytes_le(), y.into_repr().to_bytes_le())),
        Err(_) => None,
    }
}

/// The canonical little-endian bytes of the small integer `k`.
pub open spec fn small_repr(k: u8) -> Seq<u8> {
    Seq::new(32, |i: int| if i == 0 { k } else { 0u8 })
}

/// Whether 32 canonical bytes are those of the field element `k`.
pub fn repr_is_small(repr: &[u8], k: u8) -> (r: bool)
    ensures
        r == (repr@ == small_repr(k)),
{
    if repr.len() != 32 {
        return false;
    }
    if repr[0] != k {
        assert(repr@[0] != small_repr(k)[0]);
        return false;
    }
    let mut i: usize = 1;
    while i < 32
        invariant
            repr@.len() == 32,
            1 <= i <= 32,
            repr@[0] == k,
            forall|j: int| 1 <= j < i ==> repr@[j] == 0u8,
        decreases 32 - i,
    {
        if repr[i] != 0 {
            assert(repr@[i as int] != small_repr(k)[i as int]);
            return false;
        }
        i += 1;
    }
    assert(repr@ =~= small_repr(k));
    true
}

} // verus!
