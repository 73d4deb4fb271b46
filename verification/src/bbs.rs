//! The parameters shared by the schemes that are built on BBS signatures.

use vstd::prelude::*;
use vstd::string::*;

use crate::error::Error;
use crate::group::{G1, G2};
use crate::hashing::{hash_to_g1, hash_to_g1_point, hash_to_g2, hash_to_g2_point};
use crate::linear::{g1_views, g2_views};
use crate::scalar::Scalar;
use crate::setup::{
    check_distinct_g1, check_distinct_g2, decode_g1_hex, decode_g2_hex, distinct_g1, distinct_g2, g1_from_hex,
    g2_from_hex, G1_GENERATOR_HEX, G2_GENERATOR_HEX,
};

verus! {

/// The tag under which the verifier's generator of the first group is hashed.
pub const GENERATOR_DST_G1: &'static str = "BBS-SIG-GENERATOR-DST-V1";

/// The tag under which the verifier's generator of the second group is hashed.
pub const GENERATOR_DST_G2: &'static str = "BBS-SIG-GENERATOR-DST-V2";

/// The text that the verifier's generator of the first group is hashed from.
pub const GBAR1_SEED: &'static str = "Issuer-Hiding BBS Make to gbar1";

/// The text that the verifier's generator of the second group is hashed from.
pub const GBAR2_SEED: &'static str = "Issuer-Hiding BBS Make to gbar2";

/// A further fixed point of the first group, compressed, in hexadecimal.
pub const Q1_HEX: &'static str =
    "a9ec65b70a7fbe40c874c9eb041c2cb0a7af36ccec1bea48fa2ba4c2eb67ef7f9ecb17ed27d38d27cdeddff44c8137be";

/// The generators of the issuer's and of the verifier's signatures.
#[derive(Clone, Copy, Debug)]
pub struct PublicParameters {
    pub g1: G1,
    pub g2: G2,
    pub gbar1: G1,
    pub gbar2: G2,
    pub q1: G1,
}

/// A secret signing key.
#[derive(Clone, Copy, Debug)]
pub struct SecretKey(pub Scalar);

/// Whether the parameters are the ones that `par_gen` derives.
pub open spec fn derived(pp: PublicParameters) -> bool {
    &&& g1_from_hex(G1_GENERATOR_HEX) == Some(pp.g1@)
    &&& g2_from_hex(G2_GENERATOR_HEX) == Some(pp.g2@)
    &&& pp.gbar1@ == gbar1_point()
    &&& pp.gbar2@ == gbar2_point()
    &&& g1_from_hex(Q1_HEX) == Some(pp.q1@)
}

/// The encoding of the verifier's generator of the first group.
pub open spec fn gbar1_point() -> Seq<u8> {
    hash_to_g1_point(GBAR1_SEED.spec_bytes(), GENERATOR_DST_G1.spec_bytes())
}

/// The encoding of the verifier's generator of the second group.
pub open spec fn gbar2_point() -> Seq<u8> {
    hash_to_g2_point(GBAR2_SEED.spec_bytes(), GENERATOR_DST_G2.spec_bytes())
}

/// Why no parameters are derived, if none are: a published encoding does
/// not decode, or a generator is the identity, or two generators of one
/// group are the same.
pub open spec fn par_gen_error() -> Option<Error> {
    match (g1_from_hex(G1_GENERATOR_HEX), g2_from_hex(G2_GENERATOR_HEX), g1_from_hex(Q1_HEX)) {
        (Some(g1), Some(g2), Some(q1)) => if distinct_g1(seq![g1, gbar1_point(), q1]) && distinct_g2(
            seq![g2, gbar2_point()],
        ) {
            None
        } else {
            Some(Error::InvalidParameter)
        },
        _ => Some(Error::InvalidEncoding),
    }
}

/// Whether no generator is the identity and no two generators of one group
/// are the same.
pub open spec fn sound(pp: PublicParameters) -> bool {
    &&& distinct_g1(seq![pp.g1@, pp.gbar1@, pp.q1@])
    &&& distinct_g2(seq![pp.g2@, pp.gbar2@])
}

/// Derives the parameters and checks that no generator is the identity and
/// that the generators of each group differ from one another.
pub fn par_gen() -> (r: Result<PublicParameters, Error>)
    ensures
        match r {
            Ok(pp) => par_gen_error() is None && derived(pp) && sound(pp),
            Err(e) => par_gen_error() == Some(e),
        },
{
    let g1 = match decode_g1_hex(G1_GENERATOR_HEX) {
        Ok(p) => p,
        Err(e) => {
            return Err(e);
        },
    };
    let g2 = match decode_g2_hex(G2_GENERATOR_HEX) {
        Ok(p) => p,
        Err(e) => {
            return Err(e);
        },
    };
    let gbar1 = hash_to_g1(GBAR1_SEED.as_bytes(), GENERATOR_DST_G1.as_bytes());
    let gbar2 = hash_to_g2(GBAR2_SEED.as_bytes(), GENERATOR_DST_G2.as_bytes());
    let q1 = match decode_g1_hex(Q1_HEX) {
        Ok(p) => p,
        Err(e) => {
            return Err(e);
        },
    };
    let all1 = vec![g1, gbar1, q1];
    let all2 = vec![g2, gbar2];
    assert(g1_views(all1@) =~= seq![g1@, gbar1@, q1@]);
    assert(g2_views(all2@) =~= seq![g2@, gbar2@]);
    if !check_distinct_g1(&all1) || !check_distinct_g2(&all2) {
        return Err(Error::InvalidParameter);
    }
    Ok(PublicParameters { g1, g2, gbar1, gbar2, q1 })
}

} // verus!
