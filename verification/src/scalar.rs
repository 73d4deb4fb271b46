//! Elements of the scalar field of BLS12-381.
//!
//! A [`Scalar`] holds the canonical 32-byte little-endian encoding of an
//! integer below the group order. Its view is that integer; the arithmetic
//! is done by `ark_bls12_381::Fr`.

use ark_bls12_381::Fr;
use ark_ff::{Field, PrimeField};
use ark_serialize::CanonicalSerialize;
use ark_std::UniformRand;
use vstd::arithmetic::div_mod::{lemma_mul_mod_noop_left, lemma_mul_mod_noop_right, lemma_small_mod};
use vstd::prelude::*;

use crate::error::Error;

verus! {

/// The order of the groups, which is the modulus of the scalar field.
pub open spec fn modulus() -> nat {
    52435875175126190479447740508185965837690552500527637822603658699938581184513nat
}

/// The integer that a little-endian byte string stands for.
pub open spec fn le_value(bytes: Seq<u8>) -> nat
    decreases bytes.len(),
{
    if bytes.len() == 0 {
        0
    } else {
        bytes[0] as nat + 256 * le_value(bytes.drop_first())
    }
}

/// Sum in the scalar field.
#[verifier::opaque]
pub open spec fn fr_sum(a: nat, b: nat) -> nat {
    (a + b) % modulus()
}

/// Difference in the scalar field.
#[verifier::opaque]
pub open spec fn fr_diff(a: nat, b: nat) -> nat {
    ((a + modulus() - b % modulus()) % (modulus() as int)) as nat
}

/// Product in the scalar field.
#[verifier::opaque]
pub open spec fn fr_prod(a: nat, b: nat) -> nat {
    (a * b) % modulus()
}

/// Additive inverse in the scalar field.
#[verifier::opaque]
pub open spec fn fr_opp(a: nat) -> nat {
    ((modulus() - a % modulus()) % (modulus() as int)) as nat
}

/// Whether `b` is the multiplicative inverse of `a` in the scalar field.
pub open spec fn fr_inverse_of(a: nat, b: nat) -> bool {
    b < modulus() && (a * b) % modulus() == 1
}

/// The multiplicative inverse in the scalar field, for a unit.
pub open spec fn fr_inv(a: nat) -> nat {
    choose|b: nat| fr_inverse_of(a, b)
}

/// An element of the scalar field.
#[derive(Clone, Copy, Debug)]
pub struct Scalar {
    pub(crate) bytes: [u8; 32],
}

impl View for Scalar {
    type V = nat;

    open spec fn view(&self) -> nat {
        le_value(self.encoding())
    }
}

impl Scalar {
    /// The canonical encoding: 32 bytes, little-endian.
    pub closed spec fn encoding(self) -> Seq<u8> {
        self.bytes@
    }

    /// Every scalar is the encoding of an integer below the modulus.
    #[verifier::type_invariant]
    pub open spec fn well_formed(self) -> bool {
        self@ < modulus()
    }

    /// The canonical encoding of the scalar.
    pub fn to_bytes(&self) -> (r: [u8; 32])
        ensures
            r@ == self.encoding(),
    {
        self.bytes
    }

    /// The scalar that 32 little-endian bytes encode, if they encode one.
    pub fn from_bytes(bytes: &[u8; 32]) -> (r: Result<Scalar, Error>)
        ensures
            match r {
                Ok(s) => le_value(bytes@) < modulus() && s.encoding() == bytes@,
                Err(e) => le_value(bytes@) >= modulus() && e == Error::InvalidEncoding,
            },
    {
        match fr_decode(bytes) {
            Some(s) => Ok(s),
            None => Err(Error::InvalidEncoding),
        }
    }

    /// The scalar with the given small value.
    pub fn from_u64(x: u64) -> (r: Scalar)
        ensures
            r@ == x,
    {
        fr_from_u64(x)
    }

    /// Whether the scalar is zero.
    pub fn is_zero(&self) -> (r: bool)
        ensures
            r == (self@ == 0),
    {
        let mut i: usize = 0;
        while i < 32
            invariant
                i <= 32,
                self.bytes@.len() == 32,
                forall|j: int| 0 <= j < i ==> self.bytes@[j] == 0,
            decreases 32 - i,
        {
            if self.bytes[i] != 0 {
                proof {
                    lemma_zero_value(self.bytes@);
                }
                return false;
            }
            i += 1;
        }
        proof {
            lemma_zero_value(self.bytes@);
        }
        true
    }

    /// Whether two scalars are the same field element.
    pub fn same(&self, other: &Scalar) -> (r: bool)
        ensures
            r == (self@ == other@),
            r == (*self == *other),
    {
        let mut i: usize = 0;
        while i < 32
            invariant
                i <= 32,
                self.bytes@.len() == 32,
                other.bytes@.len() == 32,
                forall|j: int| 0 <= j < i ==> self.bytes@[j] == other.bytes@[j],
            decreases 32 - i,
        {
            if self.bytes[i] != other.bytes[i] {
                proof {
                    if self@ == other@ {
                        lemma_value_injective(self.bytes@, other.bytes@);
                    }
                }
                return false;
            }
            i += 1;
        }
        proof {
            assert(self.bytes@ =~= other.bytes@);
            assert(self.bytes =~= other.bytes);
        }
        true
    }

    /// The multiplicative inverse, which zero alone lacks.
    pub fn invert(&self) -> (r: Option<Scalar>)
        ensures
            r is None <==> self@ == 0,
            r matches Some(b) ==> b@ == fr_inv(self@) && fr_inverse_of(self@, b@),
    {
        let r = fr_inverse(self);
        proof {
            if let Some(b) = r {
                lemma_inverse_unique(self@, b@, fr_inv(self@));
            }
        }
        r
    }

    /// A scalar drawn from the thread's random generator.
    pub fn random() -> (r: Scalar) {
        fr_rand()
    }

    /// A non-zero scalar drawn from the thread's random generator. Gives up
    /// after a few zero draws in a row.
    pub fn random_nonzero() -> (r: Result<Scalar, Error>)
        ensures
            match r {
                Ok(s) => s@ != 0,
                Err(e) => e == Error::RandomnessFailure,
            },
    {
        let mut tries: usize = 0;
        while tries < 8
            invariant
                tries <= 8,
            decreases 8 - tries,
        {
            let s = fr_rand();
            if !s.is_zero() {
                return Ok(s);
            }
            tries += 1;
        }
        Err(Error::RandomnessFailure)
    }
}

/// A byte string is all zero exactly when its value is zero.
pub proof fn lemma_zero_value(bytes: Seq<u8>)
    ensures
        le_value(bytes) == 0 <==> (forall|i: int| 0 <= i < bytes.len() ==> bytes[i] == 0),
    decreases bytes.len(),
{
    if bytes.len() > 0 {
        let rest = bytes.drop_first();
        lemma_zero_value(rest);
        if le_value(bytes) == 0 {
            assert forall|i: int| 0 <= i < bytes.len() implies bytes[i] == 0 by {
                if i > 0 {
                    assert(rest[i - 1] == bytes[i]);
                }
            }
        } else {
            if forall|i: int| 0 <= i < bytes.len() ==> bytes[i] == 0 {
                assert forall|i: int| 0 <= i < rest.len() implies rest[i] == 0 by {
                    assert(rest[i] == bytes[i + 1]);
                }
            }
        }
    }
}

/// Byte strings of one length with one value are equal.
pub proof fn lemma_value_injective(a: Seq<u8>, b: Seq<u8>)
    requires
        a.len() == b.len(),
        le_value(a) == le_value(b),
    ensures
        a =~= b,
    decreases a.len(),
{
    if a.len() > 0 {
        let ra = a.drop_first();
        let rb = b.drop_first();
        assert(a[0] as nat + 256 * le_value(ra) == b[0] as nat + 256 * le_value(rb));
        assert(a[0] == b[0] && le_value(ra) == le_value(rb)) by (nonlinear_arith)
            requires
                a[0] as nat + 256 * le_value(ra) == b[0] as nat + 256 * le_value(rb),
                a[0] < 256,
                b[0] < 256,
        ;
        lemma_value_injective(ra, rb);
        assert forall|i: int| 0 <= i < a.len() implies a[i] == b[i] by {
            if i > 0 {
                assert(ra[i - 1] == a[i]);
                assert(rb[i - 1] == b[i]);
            }
        }
    }
}

/// A unit of the scalar field has one inverse.
pub proof fn lemma_inverse_unique(a: nat, b1: nat, b2: nat)
    requires
        fr_inverse_of(a, b1),
        fr_inverse_of(a, b2),
    ensures
        b1 == b2,
{
    let p = modulus() as int;
    let ai = a as int;
    let c1 = b1 as int;
    let c2 = b2 as int;
    let x: int = (c1 * ai) * c2;
    assert((c1 * ai) % p == 1) by {
        assert(c1 * ai == ai * c1) by (nonlinear_arith);
    }
    lemma_mul_mod_noop_left(c1 * ai, c2, p);
    assert(1 * c2 == c2);
    lemma_small_mod(b2, p as nat);
    assert(x % p == c2);
    assert(x == c1 * (ai * c2)) by (nonlinear_arith)
        requires
            x == (c1 * ai) * c2,
    ;
    lemma_mul_mod_noop_right(c1, ai * c2, p);
    assert(c1 * 1 == c1);
    lemma_small_mod(b1, p as nat);
    assert(x % p == c1);
}

/// Scalars with one value are one scalar.
pub proof fn lemma_scalar_determined(a: Scalar, b: Scalar)
    requires
        a@ == b@,
    ensures
        a == b,
{
    lemma_value_injective(a.bytes@, b.bytes@);
    assert(a.bytes =~= b.bytes);
}

/// `Fr::deserialize_compressed`: the bytes decode exactly when the integer
/// they encode is below the modulus, and the element then has that value.
#[verifier::external_body]
fn fr_decode(bytes: &[u8; 32]) -> (r: Option<Scalar>)
    ensures
        r is Some <==> le_value(bytes@) < modulus(),
        r matches Some(s) ==> s.encoding() == bytes@,
{
    let x: Option<Fr> = ark_serialize::CanonicalDeserialize::deserialize_compressed(&bytes[..]).ok();
    x.map(|_| Scalar { bytes: *bytes })
}

/// `Fr::from(u64)`: the field element with that integer value.
#[verifier::external_body]
fn fr_from_u64(x: u64) -> (r: Scalar)
    ensures
        r@ == x,
{
    let mut out = [0u8; 32];
    let _ = Fr::from(x).serialize_compressed(&mut out[..]);
    Scalar { bytes: out }
}

/// `Fr::rand` on `rand::thread_rng()`: some field element.
#[verifier::external_body]
fn fr_rand() -> (r: Scalar) {
    let mut out = [0u8; 32];
    let _ = Fr::rand(&mut rand::thread_rng()).serialize_compressed(&mut out[..]);
    Scalar { bytes: out }
}

/// `+` of `Fr`: addition modulo the group order.
#[verifier::external_body]
pub(crate) fn fr_add(a: &Scalar, b: &Scalar) -> (r: Scalar)
    ensures
        r@ == fr_sum(a@, b@),
{
    let x = Fr::from_le_bytes_mod_order(&a.bytes) + Fr::from_le_bytes_mod_order(&b.bytes);
    let mut out = [0u8; 32];
    let _ = x.serialize_compressed(&mut out[..]);
    Scalar { bytes: out }
}

/// `-` of `Fr`: subtraction modulo the group order.
#[verifier::external_body]
pub(crate) fn fr_sub(a: &Scalar, b: &Scalar) -> (r: Scalar)
    ensures
        r@ == fr_diff(a@, b@),
{
    let x = Fr::from_le_bytes_mod_order(&a.bytes) - Fr::from_le_bytes_mod_order(&b.bytes);
    let mut out = [0u8; 32];
    let _ = x.serialize_compressed(&mut out[..]);
    Scalar { bytes: out }
}

/// `*` of `Fr`: multiplication modulo the group order.
#[verifier::external_body]
pub(crate) fn fr_mul(a: &Scalar, b: &Scalar) -> (r: Scalar)
    ensures
        r@ == fr_prod(a@, b@),
{
    let x = Fr::from_le_bytes_mod_order(&a.bytes) * Fr::from_le_bytes_mod_order(&b.bytes);
    let mut out = [0u8; 32];
    let _ = x.serialize_compressed(&mut out[..]);
    Scalar { bytes: out }
}

/// Unary `-` of `Fr`: negation modulo the group order.
#[verifier::external_body]
pub(crate) fn fr_neg(a: &Scalar) -> (r: Scalar)
    ensures
        r@ == fr_opp(a@),
{
    let x = -Fr::from_le_bytes_mod_order(&a.bytes);
    let mut out = [0u8; 32];
    let _ = x.serialize_compressed(&mut out[..]);
    Scalar { bytes: out }
}

/// `Field::inverse` of `Fr`: `None` for zero, else the element whose product
/// with the argument is one.
#[verifier::external_body]
pub(crate) fn fr_inverse(a: &Scalar) -> (r: Option<Scalar>)
    ensures
        r is None <==> a@ == 0,
        r matches Some(b) ==> fr_inverse_of(a@, b@),
{
    let x = Fr::from_le_bytes_mod_order(&a.bytes).inverse()?;
    let mut out = [0u8; 32];
    let _ = x.serialize_compressed(&mut out[..]);
    Some(Scalar { bytes: out })
}

} // verus!
