//! The three groups of BLS12-381 and the pairing between them.
//!
//! A [`G1`], [`G2`] or [`Gt`] holds the canonical compressed encoding of a
//! group element, and its view is that byte string. The group law, scalar
//! multiplication and the pairing are computed by `ark_bls12_381`; what they
//! return is named here and not unfolded.

use ark_bls12_381::{Bls12_381, Fr, G1Affine, G2Affine};
use ark_ec::pairing::{Pairing, PairingOutput};
use ark_ec::{AffineRepr, CurveGroup};
use ark_ff::PrimeField;
use ark_serialize::{CanonicalDeserialize, CanonicalSerialize};
use vstd::prelude::*;

use crate::error::Error;
use crate::scalar::Scalar;

verus! {

/// The canonical encoding of the point of the first group that 48 bytes
/// decode to, if they decode to one in the prime-order subgroup.
pub uninterp spec fn g1_decoding(bytes: Seq<u8>) -> Option<Seq<u8>>;

/// The encoding of the sum of two encoded points of the first group.
pub uninterp spec fn g1_sum(a: Seq<u8>, b: Seq<u8>) -> Seq<u8>;

/// The encoding of an encoded point of the first group times an integer.
pub uninterp spec fn g1_mul(p: Seq<u8>, k: nat) -> Seq<u8>;

/// Whether an encoded point of the first group is the identity.
pub uninterp spec fn g1_is_identity(p: Seq<u8>) -> bool;

/// The canonical encoding of the point of the second group that 96 bytes
/// decode to, if they decode to one in the prime-order subgroup.
pub uninterp spec fn g2_decoding(bytes: Seq<u8>) -> Option<Seq<u8>>;

/// The encoding of the sum of two encoded points of the second group.
pub uninterp spec fn g2_sum(a: Seq<u8>, b: Seq<u8>) -> Seq<u8>;

/// The encoding of an encoded point of the second group times an integer.
pub uninterp spec fn g2_mul(p: Seq<u8>, k: nat) -> Seq<u8>;

/// Whether an encoded point of the second group is the identity.
pub uninterp spec fn g2_is_identity(p: Seq<u8>) -> bool;

/// The encoding of the pairing of two encoded points.
pub uninterp spec fn pairing(p: Seq<u8>, q: Seq<u8>) -> Seq<u8>;

/// The encoding of the composition of two encoded target-group elements.
pub uninterp spec fn gt_sum(a: Seq<u8>, b: Seq<u8>) -> Seq<u8>;

/// A point of the first group.
#[derive(Clone, Copy, Debug)]
pub struct G1 {
    pub(crate) bytes: [u8; 48],
}

/// A point of the second group.
#[derive(Clone, Copy, Debug)]
pub struct G2 {
    pub(crate) bytes: [u8; 96],
}

/// An element of the target group.
#[derive(Clone, Copy, Debug)]
pub struct Gt {
    pub(crate) bytes: [u8; 576],
}

impl View for G1 {
    type V = Seq<u8>;

    closed spec fn view(&self) -> Seq<u8> {
        self.bytes@
    }
}

impl View for G2 {
    type V = Seq<u8>;

    closed spec fn view(&self) -> Seq<u8> {
        self.bytes@
    }
}

impl View for Gt {
    type V = Seq<u8>;

    closed spec fn view(&self) -> Seq<u8> {
        self.bytes@
    }
}

impl G1 {
    /// Every point at hand is the canonical encoding of itself.
    #[verifier::type_invariant]
    pub open spec fn well_formed(self) -> bool {
        g1_decoding(self@) == Some(self@)
    }

    /// The canonical compressed encoding.
    pub fn to_bytes(&self) -> (r: [u8; 48])
        ensures
            r@ == self@,
    {
        self.bytes
    }

    /// The point that 48 bytes decode to.
    pub fn from_bytes(bytes: &[u8; 48]) -> (r: Result<G1, Error>)
        ensures
            match r {
                Ok(p) => g1_decoding(bytes@) == Some(p@),
                Err(e) => g1_decoding(bytes@) is None && e == Error::InvalidEncoding,
            },
    {
        match g1_decode(bytes) {
            Some(p) => Ok(p),
            None => Err(Error::InvalidEncoding),
        }
    }

    /// The point that a byte string decodes to; only 48 bytes decode.
    pub fn from_slice(bytes: &[u8]) -> (r: Result<G1, Error>)
        ensures
            match r {
                Ok(p) => bytes@.len() == 48 && g1_decoding(bytes@) == Some(p@),
                Err(e) => e == Error::InvalidEncoding && (bytes@.len() != 48 || g1_decoding(bytes@)
                    is None),
            },
    {
        if bytes.len() != 48 {
            return Err(Error::InvalidEncoding);
        }
        let mut arr = [0u8; 48];
        let mut i: usize = 0;
        while i < 48
            invariant
                i <= 48,
                bytes@.len() == 48,
                forall|j: int| 0 <= j < i ==> arr@[j] == bytes@[j],
            decreases 48 - i,
        {
            arr[i] = bytes[i];
            i += 1;
        }
        assert(arr@ =~= bytes@);
        G1::from_bytes(&arr)
    }

    /// Whether two points are the same.
    pub fn same(&self, other: &G1) -> (r: bool)
        ensures
            r == (self@ == other@),
            r == (*self == *other),
    {
        let mut i: usize = 0;
        while i < 48
            invariant
                i <= 48,
                forall|j: int| 0 <= j < i ==> self.bytes@[j] == other.bytes@[j],
            decreases 48 - i,
        {
            if self.bytes[i] != other.bytes[i] {
                return false;
            }
            i += 1;
        }
        proof {
            assert(self.bytes@ =~= other.bytes@);
            assert(self.bytes =~= other.bytes);
        }
        true
    }

    /// Whether the point is the identity of the group.
    pub fn is_identity(&self) -> (r: bool)
        ensures
            r == g1_is_identity(self@),
    {
        g1_is_zero(self)
    }
}

impl G2 {
    /// Every point at hand is the canonical encoding of itself.
    #[verifier::type_invariant]
    pub open spec fn well_formed(self) -> bool {
        g2_decoding(self@) == Some(self@)
    }

    /// The canonical compressed encoding.
    pub fn to_bytes(&self) -> (r: [u8; 96])
        ensures
            r@ == self@,
    {
        self.bytes
    }

    /// The point that 96 bytes decode to.
    pub fn from_bytes(bytes: &[u8; 96]) -> (r: Result<G2, Error>)
        ensures
            match r {
                Ok(p) => g2_decoding(bytes@) == Some(p@),
                Err(e) => g2_decoding(bytes@) is None && e == Error::InvalidEncoding,
            },
    {
        match g2_decode(bytes) {
            Some(p) => Ok(p),
            None => Err(Error::InvalidEncoding),
        }
    }

    /// The point that a byte string decodes to; only 96 bytes decode.
    pub fn from_slice(bytes: &[u8]) -> (r: Result<G2, Error>)
        ensures
            match r {
                Ok(p) => bytes@.len() == 96 && g2_decoding(bytes@) == Some(p@),
                Err(e) => e == Error::InvalidEncoding && (bytes@.len() != 96 || g2_decoding(bytes@)
                    is None),
            },
    {
        if bytes.len() != 96 {
            return Err(Error::InvalidEncoding);
        }
        let mut arr = [0u8; 96];
        let mut i: usize = 0;
        while i < 96
            invariant
                i <= 96,
                bytes@.len() == 96,
                forall|j: int| 0 <= j < i ==> arr@[j] == bytes@[j],
            decreases 96 - i,
        {
            arr[i] = bytes[i];
            i += 1;
        }
        assert(arr@ =~= bytes@);
        G2::from_bytes(&arr)
    }

    /// Whether two points are the same.
    pub fn same(&self, other: &G2) -> (r: bool)
        ensures
            r == (self@ == other@),
            r == (*self == *other),
    {
        let mut i: usize = 0;
        while i < 96
            invariant
                i <= 96,
                forall|j: int| 0 <= j < i ==> self.bytes@[j] == other.bytes@[j],
            decreases 96 - i,
        {
            if self.bytes[i] != other.bytes[i] {
                return false;
            }
            i += 1;
        }
        proof {
            assert(self.bytes@ =~= other.bytes@);
            assert(self.bytes =~= other.bytes);
        }
        true
    }

    /// Whether the point is the identity of the group.
    pub fn is_identity(&self) -> (r: bool)
        ensures
            r == g2_is_identity(self@),
    {
        g2_is_zero(self)
    }
}

impl Gt {
    /// The canonical encoding.
    pub fn to_bytes(&self) -> (r: [u8; 576])
        ensures
            r@ == self@,
    {
        self.bytes
    }

    /// Whether two elements are the same.
    pub fn same(&self, other: &Gt) -> (r: bool)
        ensures
            r == (self@ == other@),
            r == (*self == *other),
    {
        let mut i: usize = 0;
        while i < 576
            invariant
                i <= 576,
                forall|j: int| 0 <= j < i ==> self.bytes@[j] == other.bytes@[j],
            decreases 576 - i,
        {
            if self.bytes[i] != other.bytes[i] {
                return false;
            }
            i += 1;
        }
        proof {
            assert(self.bytes@ =~= other.bytes@);
            assert(self.bytes =~= other.bytes);
        }
        true
    }
}

/// Points of the first group with one encoding are one point.
pub proof fn lemma_g1_determined(a: G1, b: G1)
    requires
        a@ == b@,
    ensures
        a == b,
{
    assert(a.bytes =~= b.bytes);
}

/// Points of the second group with one encoding are one point.
pub proof fn lemma_g2_determined(a: G2, b: G2)
    requires
        a@ == b@,
    ensures
        a == b,
{
    assert(a.bytes =~= b.bytes);
}

/// Elements of the target group with one encoding are one element.
pub proof fn lemma_gt_determined(a: Gt, b: Gt)
    requires
        a@ == b@,
    ensures
        a == b,
{
    assert(a.bytes =~= b.bytes);
}

/// `G1Affine::deserialize_compressed`, then `serialize_compressed`: the
/// canonical encoding of the decoded point, or `None` where the bytes are no
/// encoding of a point of the prime-order subgroup.
#[verifier::external_body]
fn g1_decode(bytes: &[u8; 48]) -> (r: Option<G1>)
    ensures
        r is Some <==> g1_decoding(bytes@) is Some,
        r matches Some(p) ==> g1_decoding(bytes@) == Some(p@),
{
    let p = G1Affine::deserialize_compressed(&bytes[..]).ok()?;
    let mut out = [0u8; 48];
    let _ = p.serialize_compressed(&mut out[..]);
    Some(G1 { bytes: out })
}

/// `AffineRepr::is_zero` of `G1Affine`: whether the point is the identity,
/// which `g1_is_identity` names for its encoding.
#[verifier::external_body]
fn g1_is_zero(p: &G1) -> (r: bool)
    ensures
        r == g1_is_identity(p@),
{
    G1Affine::deserialize_compressed_unchecked(&p.bytes[..]).unwrap_or_default().is_zero()
}

/// `+` of `G1Affine`, made affine by `CurveGroup::into_affine`: the encoding
/// of the sum, which `g1_sum` names for the two encodings.
#[verifier::external_body]
pub(crate) fn g1_add(a: &G1, b: &G1) -> (r: G1)
    ensures
        r@ == g1_sum(a@, b@),
{
    let x = G1Affine::deserialize_compressed_unchecked(&a.bytes[..]).unwrap_or_default();
    let y = G1Affine::deserialize_compressed_unchecked(&b.bytes[..]).unwrap_or_default();
    let mut out = [0u8; 48];
    let _ = (x + y).into_affine().serialize_compressed(&mut out[..]);
    G1 { bytes: out }
}

/// `*` of `G1Affine` by an `Fr`, made affine by `CurveGroup::into_affine`:
/// the encoding of the multiple, which `g1_mul` names for the encoding and
/// the scalar's value.
#[verifier::external_body]
pub(crate) fn g1_scale(p: &G1, k: &Scalar) -> (r: G1)
    ensures
        r@ == g1_mul(p@, k@),
{
    let x = G1Affine::deserialize_compressed_unchecked(&p.bytes[..]).unwrap_or_default();
    let s = Fr::from_le_bytes_mod_order(&k.bytes);
    let mut out = [0u8; 48];
    let _ = (x * s).into_affine().serialize_compressed(&mut out[..]);
    G1 { bytes: out }
}

/// `G2Affine::deserialize_compressed`, then `serialize_compressed`: the
/// canonical encoding of the decoded point, or `None` where the bytes are no
/// encoding of a point of the prime-order subgroup.
#[verifier::external_body]
fn g2_decode(bytes: &[u8; 96]) -> (r: Option<G2>)
    ensures
        r is Some <==> g2_decoding(bytes@) is Some,
        r matches Some(p) ==> g2_decoding(bytes@) == Some(p@),
{
    let p = G2Affine::deserialize_compressed(&bytes[..]).ok()?;
    let mut out = [0u8; 96];
    let _ = p.serialize_compressed(&mut out[..]);
    Some(G2 { bytes: out })
}

/// `AffineRepr::is_zero` of `G2Affine`: whether the point is the identity,
/// which `g2_is_identity` names for its encoding.
#[verifier::external_body]
fn g2_is_zero(p: &G2) -> (r: bool)
    ensures
        r == g2_is_identity(p@),
{
    G2Affine::deserialize_compressed_unchecked(&p.bytes[..]).unwrap_or_default().is_zero()
}

/// `+` of `G2Affine`, made affine by `CurveGroup::into_affine`: the encoding
/// of the sum, which `g2_sum` names for the two encodings.
#[verifier::external_body]
pub(crate) fn g2_add(a: &G2, b: &G2) -> (r: G2)
    ensures
        r@ == g2_sum(a@, b@),
{
    let x = G2Affine::deserialize_compressed_unchecked(&a.bytes[..]).unwrap_or_default();
    let y = G2Affine::deserialize_compressed_unchecked(&b.bytes[..]).unwrap_or_default();
    let mut out = [0u8; 96];
    let _ = (x + y).into_affine().serialize_compressed(&mut out[..]);
    G2 { bytes: out }
}

/// `*` of `G2Affine` by an `Fr`, made affine by `CurveGroup::into_affine`:
/// the encoding of the multiple, which `g2_mul` names for the encoding and
/// the scalar's value.
#[verifier::external_body]
pub(crate) fn g2_scale(p: &G2, k: &Scalar) -> (r: G2)
    ensures
        r@ == g2_mul(p@, k@),
{
    let x = G2Affine::deserialize_compressed_unchecked(&p.bytes[..]).unwrap_or_default();
    let s = Fr::from_le_bytes_mod_order(&k.bytes);
    let mut out = [0u8; 96];
    let _ = (x * s).into_affine().serialize_compressed(&mut out[..]);
    G2 { bytes: out }
}

/// `Bls12_381::pairing` of a `G1Affine` and a `G2Affine`: the encoding of
/// the target-group element, which `pairing` names for the two encodings.
#[verifier::external_body]
pub(crate) fn pair(p: &G1, q: &G2) -> (r: Gt)
    ensures
        r@ == pairing(p@, q@),
{
    let x = G1Affine::deserialize_compressed_unchecked(&p.bytes[..]).unwrap_or_default();
    let y = G2Affine::deserialize_compressed_unchecked(&q.bytes[..]).unwrap_or_default();
    let mut out = [0u8; 576];
    let _ = Bls12_381::pairing(x, y).serialize_compressed(&mut out[..]);
    Gt { bytes: out }
}

/// `+` of `PairingOutput<Bls12_381>`: the encoding of the sum, which
/// `gt_sum` names for the two encodings.
#[verifier::external_body]
pub(crate) fn gt_add(a: &Gt, b: &Gt) -> (r: Gt)
    ensures
        r@ == gt_sum(a@, b@),
{
    let x = PairingOutput::<Bls12_381>::deserialize_compressed_unchecked(&a.bytes[..]).unwrap_or_default();
    let y = PairingOutput::<Bls12_381>::deserialize_compressed_unchecked(&b.bytes[..]).unwrap_or_default();
    let mut out = [0u8; 576];
    let _ = (x + y).serialize_compressed(&mut out[..]);
    Gt { bytes: out }
}

} // verus!
