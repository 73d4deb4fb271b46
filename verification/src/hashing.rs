//! Hashing to the scalar field and to the two source groups.
//!
//! The constructions are those of `ark_ff` and `ark_ec`: expansion of the
//! message with SHA-256 under a domain separation tag, then reduction to a
//! field element, or the Wahby-Boneh map and cofactor clearing. Each result
//! is a function of the message and the tag alone and is named here.

use ark_bls12_381::{g1::Config as G1Config, g2::Config as G2Config, Fr, G1Projective, G2Projective};
use ark_ec::hashing::{curve_maps::wb::WBMap, map_to_curve_hasher::MapToCurveBasedHasher, HashToCurve};
use ark_ff::field_hashers::{DefaultFieldHasher, HashToField};
use ark_serialize::CanonicalSerialize;
use sha2::Sha256;
use vstd::prelude::*;

use crate::group::{G1, G2};
use crate::scalar::Scalar;

verus! {

/// The value of the scalar that a message hashes to under a tag.
pub uninterp spec fn hash_to_fr_value(input: Seq<u8>, dst: Seq<u8>) -> nat;

/// The encoding of the point of the first group that a message hashes to
/// under a tag.
pub uninterp spec fn hash_to_g1_point(input: Seq<u8>, dst: Seq<u8>) -> Seq<u8>;

/// The encoding of the point of the second group that a message hashes to
/// under a tag.
pub uninterp spec fn hash_to_g2_point(input: Seq<u8>, dst: Seq<u8>) -> Seq<u8>;

/// `DefaultFieldHasher::<Sha256>::hash_to_field::<1>` for `Fr`, created by
/// `HashToField::new` with the tag: the one scalar it returns, whose value
/// `hash_to_fr_value` names for the message and the tag.
#[verifier::external_body]
pub fn hash_to_fr(input: &[u8], dst: &[u8]) -> (r: Scalar)
    ensures
        r@ == hash_to_fr_value(input@, dst@),
{
    let hasher = <DefaultFieldHasher<Sha256> as HashToField<Fr>>::new(dst);
    let scalars: [Fr; 1] = hasher.hash_to_field::<1>(input);
    let mut out = [0u8; 32];
    let _ = scalars[0].serialize_compressed(&mut out[..]);
    Scalar { bytes: out }
}

/// `MapToCurveBasedHasher::hash` into `G1Projective` with SHA-256 and the
/// Wahby-Boneh map, created by `MapToCurveBasedHasher::new` with the tag:
/// the encoding of the point it returns, which `hash_to_g1_point` names for
/// the message and the tag. For this curve neither outside call fails.
#[verifier::external_body]
pub fn hash_to_g1(input: &[u8], dst: &[u8]) -> (r: G1)
    ensures
        r@ == hash_to_g1_point(input@, dst@),
{
    let mut out = [0u8; 48];
    if let Ok(hasher) = MapToCurveBasedHasher::<G1Projective, DefaultFieldHasher<Sha256>, WBMap<G1Config>>::new(dst) {
        let _ = hasher.hash(input).unwrap_or_default().serialize_compressed(&mut out[..]);
    }
    G1 { bytes: out }
}

/// `MapToCurveBasedHasher::hash` into `G2Projective` with SHA-256 and the
/// Wahby-Boneh map, created by `MapToCurveBasedHasher::new` with the tag:
/// the encoding of the point it returns, which `hash_to_g2_point` names for
/// the message and the tag. For this curve neither outside call fails.
#[verifier::external_body]
pub fn hash_to_g2(input: &[u8], dst: &[u8]) -> (r: G2)
    ensures
        r@ == hash_to_g2_point(input@, dst@),
{
    let mut out = [0u8; 96];
    if let Ok(hasher) = MapToCurveBasedHasher::<G2Projective, DefaultFieldHasher<Sha256>, WBMap<G2Config>>::new(dst) {
        let _ = hasher.hash(input).unwrap_or_default().serialize_compressed(&mut out[..]);
    }
    G2 { bytes: out }
}

} // verus!
