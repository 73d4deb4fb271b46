//! The fixed generators that every scheme starts from.
//!
//! The two standard generators are decoded from their published compressed
//! encodings. Every other generator is hashed from a public text, so that
//! nobody knows a discrete logarithm between any two of them.

use vstd::prelude::*;
use vstd::string::*;

use crate::encoding::{decimal, hex_bytes, hex_decode, push_decimal};
use crate::error::Error;
use crate::group::{g1_decoding, g1_is_identity, g2_decoding, g2_is_identity, G1, G2};
use crate::hashing::{hash_to_g1, hash_to_g1_point};
use crate::linear::{g1_views, g2_views};
use crate::transcript::absorb;

verus! {

/// The standard generator of the first group, compressed, in hexadecimal.
pub const G1_GENERATOR_HEX: &'static str =
    "97f1d3a73197d7942695638c4fa9ac0fc3688c4f9774b905a14e3a3f171bac586c55e83ff97a1aeffb3af00adb22c6bb";

/// The standard generator of the second group, compressed, in hexadecimal.
pub const G2_GENERATOR_HEX: &'static str =
    "93e02b6052719f607dacd3a088274f65596bd0d09920b61ab5da61bbdc7f5049334cf11213945d57e5ac7d055d042b7e024aa2b2f08f0a91260805272dc51051c6e47ad4fa403b02b4510b647ae3d1770bac0326a805bbefd48056c8c121bdb8";

/// The text that each message generator's seed starts with.
pub const MESSAGE_GENERATOR_SEED: &'static str = "MESSAGE_GENERATOR_SEED_";

/// The tag under which the message generators are hashed.
pub const MESSAGE_GENERATOR_DST: &'static str = "BLS12381G1_XMD:SHA-256_SSWU_RO_";

/// The largest number of attributes that the parameters support.
pub const MAX_ATTRIBUTES: usize = 50;

/// The encoding of the point of the first group that a hexadecimal text
/// stands for.
pub open spec fn g1_from_hex(text: &str) -> Option<Seq<u8>> {
    match hex_bytes(text.spec_bytes()) {
        Some(bytes) => if bytes.len() == 48 {
            g1_decoding(bytes)
        } else {
            None
        },
        None => None,
    }
}

/// The encoding of the point of the second group that a hexadecimal text
/// stands for.
pub open spec fn g2_from_hex(text: &str) -> Option<Seq<u8>> {
    match hex_bytes(text.spec_bytes()) {
        Some(bytes) => if bytes.len() == 96 {
            g2_decoding(bytes)
        } else {
            None
        },
        None => None,
    }
}

/// The seed of the message generator with the given index.
pub open spec fn generator_seed(i: nat) -> Seq<u8> {
    MESSAGE_GENERATOR_SEED.spec_bytes() + decimal(i)
}

/// The encoding of the message generator with the given index.
pub open spec fn message_generator(i: nat) -> Seq<u8> {
    hash_to_g1_point(generator_seed(i), MESSAGE_GENERATOR_DST.spec_bytes())
}

/// The encodings of the first `n` message generators.
pub open spec fn generators(n: nat) -> Seq<Seq<u8>> {
    Seq::new(n, |i: int| message_generator(i as nat))
}

/// Whether no point of a list of points of the first group is the
/// identity and no two are the same.
pub open spec fn distinct_g1(points: Seq<Seq<u8>>) -> bool {
    &&& forall|i: int| 0 <= i < points.len() ==> !g1_is_identity(#[trigger] points[i])
    &&& forall|i: int, j: int| 0 <= i < j < points.len() ==> points[i] != points[j]
}

/// Whether no point of a list of points of the second group is the
/// identity and no two are the same.
pub open spec fn distinct_g2(points: Seq<Seq<u8>>) -> bool {
    &&& forall|i: int| 0 <= i < points.len() ==> !g2_is_identity(#[trigger] points[i])
    &&& forall|i: int, j: int| 0 <= i < j < points.len() ==> points[i] != points[j]
}

/// Whether no point of a list is the identity and no two are the same.
pub fn check_distinct_g1(points: &Vec<G1>) -> (r: bool)
    ensures
        r == distinct_g1(g1_views(points@)),
{
    let mut i: usize = 0;
    while i < points.len()
        invariant
            i <= points.len(),
            forall|k: int| 0 <= k < i ==> !g1_is_identity(#[trigger] g1_views(points@)[k]),
            forall|k: int, j: int| 0 <= k < j < i ==> g1_views(points@)[k] != g1_views(points@)[j],
        decreases points.len() - i,
    {
        if points[i].is_identity() {
            assert(g1_is_identity(g1_views(points@)[i as int]));
            return false;
        }
        let mut j: usize = 0;
        while j < i
            invariant
                j <= i < points.len(),
                forall|k: int| 0 <= k < j ==> g1_views(points@)[k] != g1_views(points@)[i as int],
            decreases i - j,
        {
            if points[j].same(&points[i]) {
                assert(g1_views(points@)[j as int] == g1_views(points@)[i as int]);
                return false;
            }
            j += 1;
        }
        i += 1;
    }
    true
}

/// Whether no point of a list is the identity and no two are the same.
pub fn check_distinct_g2(points: &Vec<G2>) -> (r: bool)
    ensures
        r == distinct_g2(g2_views(points@)),
{
    let mut i: usize = 0;
    while i < points.len()
        invariant
            i <= points.len(),
            forall|k: int| 0 <= k < i ==> !g2_is_identity(#[trigger] g2_views(points@)[k]),
            forall|k: int, j: int| 0 <= k < j < i ==> g2_views(points@)[k] != g2_views(points@)[j],
        decreases points.len() - i,
    {
        if points[i].is_identity() {
            assert(g2_is_identity(g2_views(points@)[i as int]));
            return false;
        }
        let mut j: usize = 0;
        while j < i
            invariant
                j <= i < points.len(),
                forall|k: int| 0 <= k < j ==> g2_views(points@)[k] != g2_views(points@)[i as int],
            decreases i - j,
        {
            if points[j].same(&points[i]) {
                assert(g2_views(points@)[j as int] == g2_views(points@)[i as int]);
                return false;
            }
            j += 1;
        }
        i += 1;
    }
    true
}

/// A list that starts with the given points and goes on with the points of
/// another.
pub fn joined(first: &Vec<G1>, rest: &Vec<G1>) -> (r: Vec<G1>)
    ensures
        g1_views(r@) == g1_views(first@) + g1_views(rest@),
{
    let mut out: Vec<G1> = Vec::new();
    let mut i: usize = 0;
    while i < first.len()
        invariant
            i <= first.len(),
            out.len() == i,
            forall|k: int| 0 <= k < i ==> out[k] == first[k],
        decreases first.len() - i,
    {
        out.push(first[i]);
        i += 1;
    }
    let mut j: usize = 0;
    while j < rest.len()
        invariant
            j <= rest.len(),
            out.len() == first.len() + j,
            forall|k: int| 0 <= k < first.len() ==> out[k] == first[k],
            forall|k: int| 0 <= k < j ==> out[first.len() + k] == rest[k],
        decreases rest.len() - j,
    {
        out.push(rest[j]);
        j += 1;
    }
    assert(g1_views(out@) =~= g1_views(first@) + g1_views(rest@));
    out
}

/// Decodes a point of the first group from hexadecimal text.
pub fn decode_g1_hex(text: &str) -> (r: Result<G1, Error>)
    ensures
        match r {
            Ok(p) => g1_from_hex(text) == Some(p@),
            Err(e) => e == Error::InvalidEncoding && g1_from_hex(text) is None,
        },
{
    match hex_decode(text.as_bytes()) {
        Some(bytes) => G1::from_slice(bytes.as_slice()),
        None => Err(Error::InvalidEncoding),
    }
}

/// Decodes a point of the second group from hexadecimal text.
pub fn decode_g2_hex(text: &str) -> (r: Result<G2, Error>)
    ensures
        match r {
            Ok(p) => g2_from_hex(text) == Some(p@),
            Err(e) => e == Error::InvalidEncoding && g2_from_hex(text) is None,
        },
{
    match hex_decode(text.as_bytes()) {
        Some(bytes) => G2::from_slice(bytes.as_slice()),
        None => Err(Error::InvalidEncoding),
    }
}

/// The first `n` message generators.
pub fn message_generators(n: usize) -> (r: Vec<G1>)
    ensures
        r.len() == n,
        g1_views(r@) == generators(n as nat),
{
    let mut out: Vec<G1> = Vec::new();
    let mut i: usize = 0;
    while i < n
        invariant
            i <= n,
            out.len() == i,
            forall|j: int| 0 <= j < i ==> out[j]@ == message_generator(j as nat),
        decreases n - i,
    {
        let mut seed: Vec<u8> = Vec::new();
        absorb(&mut seed, MESSAGE_GENERATOR_SEED.as_bytes());
        push_decimal(&mut seed, i);
        assert(seed@ =~= generator_seed(i as nat));
        out.push(hash_to_g1(seed.as_slice(), MESSAGE_GENERATOR_DST.as_bytes()));
        i += 1;
    }
    assert(g1_views(out@) =~= generators(n as nat));
    out
}

} // verus!
