//! The parameters shared by the two orientations of the Groth signature.

use vstd::prelude::*;
use vstd::string::*;

use crate::error::Error;
use crate::group::{G1, G2};
use crate::hashing::{hash_to_g1_point, hash_to_g2_point};
pub use crate::hashing::{hash_to_fr, hash_to_g1, hash_to_g2};
use crate::linear::{g1_views, g2_views};
use crate::scalar::Scalar;
use crate::setup::{
    check_distinct_g1, check_distinct_g2, decode_g1_hex, decode_g2_hex, distinct_g1, distinct_g2, g1_from_hex,
    g2_from_hex, G1_GENERATOR_HEX, G2_GENERATOR_HEX,
};

verus! {

/// The tag under which the second generator of the first group is hashed.
pub const GENERATOR_DST_G1: &'static str = "GROTH-SIG-GENERATOR-DST-V1";

/// The tag under which the second generator of the second group is hashed.
pub const GENERATOR_DST_G2: &'static str = "GROTH-SIG-GENERATOR-DST-V2";

/// The text that the second generator of the first group is hashed from.
pub const Y1_SEED: &'static str =
    "Jan Bobolz, Fabian Eidens, Stephan Krenn, Sebastian Ramacher, and Kai Samelin makes Y1";

/// The text that the second generator of the second group is hashed from.
pub const Y2_SEED: &'static str =
    "Jan Bobolz, Fabian Eidens, Stephan Krenn, Sebastian Ramacher, and Kai Samelin makes Y2";

/// Two generators in each group.
#[derive(Clone, Copy, Debug)]
pub struct PublicParameters {
    pub g1: G1,
    pub g2: G2,
    pub y1: G1,
    pub y2: G2,
}

/// A secret signing key.
#[derive(Clone, Copy, Debug)]
pub struct SecretKey(pub Scalar);

/// The encoding of the second generator of the first group.
pub open spec fn y1_point() -> Seq<u8> {
    hash_to_g1_point(Y1_SEED.spec_bytes(), GENERATOR_DST_G1.spec_bytes())
}

/// The encoding of the second generator of the second group.
pub open spec fn y2_point() -> Seq<u8> {
    hash_to_g2_point(Y2_SEED.spec_bytes(), GENERATOR_DST_G2.spec_bytes())
}

/// Whether the parameters are the ones that `par_gen` derives.
pub open spec fn derived(pp: PublicParameters) -> bool {
    &&& g1_from_hex(G1_GENERATOR_HEX) == Some(pp.g1@)
    &&& g2_from_hex(G2_GENERATOR_HEX) == Some(pp.g2@)
    &&& pp.y1@ == y1_point()
    &&& pp.y2@ == y2_point()
}

/// Why no parameters are derived, if none are: a published encoding does
/// not decode, or a generator is the identity, or the two generators of
/// one group are the same.
pub open spec fn par_gen_error() -> Option<Error> {
    match (g1_from_hex(G1_GENERATOR_HEX), g2_from_hex(G2_GENERATOR_HEX)) {
        (Some(g1), Some(g2)) => if distinct_g1(seq![g1, y1_point()]) && distinct_g2(seq![g2, y2_point()]) {
            None
        } else {
            Some(Error::InvalidParameter)
        },
        _ => Some(Error::InvalidEncoding),
    }
}

/// Whether no generator is the identity and the two generators of each
/// group differ.
pub open spec fn sound(pp: PublicParameters) -> bool {
    &&& distinct_g1(seq![pp.g1@, pp.y1@])
    &&& distinct_g2(seq![pp.g2@, pp.y2@])
}

/// Derives the parameters and checks that no generator is the identity and
/// that the two generators of each group differ.
pub fn par_gen() -> (r: Result<PublicParameters, Error>)
    ensures
        match r {
            Ok(pp) => par_gen_error() is None && derived(pp) && sound(pp),
            Err(e) => par_gen_error() == Some(e),
        },
{
    let g1 = match decode_g1_hex(G1_GENERATOR_HEX) {
        Ok(p) => p,
        Err(e) => {
            return Err(e);
        },
    };
    let g2 = match decode_g2_hex(G2_GENERATOR_HEX) {
        Ok(p) => p,
        Err(e) => {
            return Err(e);
        },
    };
    let y1 = hash_to_g1(Y1_SEED.as_bytes(), GENERATOR_DST_G1.as_bytes());
    let y2 = hash_to_g2(Y2_SEED.as_bytes(), GENERATOR_DST_G2.as_bytes());
    let all1 = vec![g1, y1];
    let all2 = vec![g2, y2];
    assert(g1_views(all1@) =~= seq![g1@, y1@]);
    assert(g2_views(all2@) =~= seq![g2@, y2@]);
    if !check_distinct_g1(&all1) || !check_distinct_g2(&all2) {
        return Err(Error::InvalidParameter);
    }
    Ok(PublicParameters { g1, g2, y1, y2 })
}

} // verus!
