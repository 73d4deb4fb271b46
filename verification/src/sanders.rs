//! Issuer-hiding presentation of Pointcheval-Sanders credentials against an
//! aggregate policy.
//!
//! Every issuer has one public point for each attribute position. The
//! verifier picks secrets `a` and `b[j]` and publishes `s = g2 * a`,
//! `vec_b[j] = g2 * (b[j] * (k - 1))` for its `k` trusted issuers, and
//! `t[i][j] = (ipk_i[j] + g2 * b[j]) * a`, with a proof that the values have
//! this form. A holder folds the `t` rows of all other issuers, weighted by
//! its attributes, into one point, which lets the verifier, who knows `a`
//! and `b`, check the randomized signature without learning the issuer.

use vstd::prelude::*;
use vstd::string::*;

use crate::algebra::{
    all_g2, group_laws, is_g1, is_g2, law_g1_identity, law_g1_mul, law_g1_mul_add, law_g1_mul_mul,
    law_g2_add_mul, law_g2_assoc, law_g2_mul, law_g2_mul_add, law_g2_mul_mul, law_g2_sum, law_g2_unit,
    law_pairing_right, law_pairing_scalar, lemma_fr_basics, lemma_fr_count_step, lemma_fr_distributes,
    lemma_fr_inverse_absorbed, lemma_fr_opp_cancels, lemma_fr_prod_opp, lemma_fr_shift_response, lemma_fr_small,
    lemma_fr_units, lemma_g2_cancel, lemma_g2_inverse_scaling, lemma_g2_lincomb_at_add,
    lemma_g2_lincomb_at_from, lemma_g2_lincomb_at_scale, lemma_g2_lincomb_at_valid, lemma_g2_lincomb_at_zero,
    lemma_g2_lincomb_from, lemma_g2_lincomb_points_added, lemma_g2_lincomb_points_scaled,
    lemma_g2_lincomb_valid, lemma_g2_partition, lemma_g2_swap_last, lemma_g2_two_pairs_cancel, lemma_g2_zero,
    lemma_values_selected,
};
use crate::error::{Error, ProofCheck};
use crate::group::{
    g1_add, g1_is_identity, g1_mul, g1_scale, g1_sum, g2_add, g2_is_identity, g2_mul, g2_scale, g2_sum, gt_add,
    gt_sum, pair, pairing, Gt, G1, G2,
};
use crate::hashing::{hash_to_fr, hash_to_fr_value};
use crate::linear::{
    copy_list, disclosed, g1_views, g2_combine, g2_lincomb, g2_lincomb_at, g2_views, hidden, hidden_indices,
    lemma_disclosed, lemma_disclosed_count, sorted_indices,
    increasing_below, lemma_hidden_members, masked_plus, negate_all, negated, random_nonzero_scalars, random_scalars, respond_plus,
    scaled, select_scalars, selected, values,
};
use crate::ps::{dot, inner_product, lemma_public_sum, make_public_points, public_points};
use crate::scalar::{fr_add, fr_diff, fr_inv, fr_mul, fr_neg, fr_opp, fr_prod, fr_sub, fr_sum, modulus, Scalar};
use crate::setup::{
    check_distinct_g1, check_distinct_g2, decode_g1_hex, decode_g2_hex, distinct_g1, distinct_g2, g1_from_hex,
    g2_from_hex, G1_GENERATOR_HEX, G2_GENERATOR_HEX, MAX_ATTRIBUTES,
};
use crate::sigma::{check_disclosure, check_inputs, disclosure_error, input_error};
use crate::transcript::{
    absorb_g1, absorb_g2, absorb_g2_list, absorb_gt, absorb_index_list, absorb_scalar_list, concat, encodings,
    index_list_bytes,
};

verus! {

/// The tag of the policy challenge.
pub const POLICY_DST: &'static str = "POLICY_CHALLENGE_GENERATOR_DST_V1";

/// The tag of the presentation challenge.
pub const PROOF_DST: &'static str = "MY_CHALLENGE_GENERATOR_DST_V1";

/// The scalar behind the two fixed points `x1` and `x2`. A signature pairs
/// `x1`'s multiple against `g2` and `g1`'s against `x2`, so the two points
/// must hide one scalar: they cannot be hashed to independently.
pub const SHARED_SECRET: u64 = 123456789;

/// The standard generators and a fixed point in each group.
#[derive(Clone, Copy, Debug)]
pub struct PublicParameters {
    pub g1: G1,
    pub g2: G2,
    pub x1: G1,
    pub x2: G2,
}

/// A secret key: one scalar for each attribute position.
#[derive(Clone, Debug)]
pub struct SecretKey {
    pub y: Vec<Scalar>,
}

/// A public key: the generator of the second group times each secret.
#[derive(Clone, Debug)]
pub struct PublicKey {
    pub pk_y: Vec<G2>,
}

/// A key pair.
#[derive(Clone, Debug)]
pub struct KeyPair {
    pub sk: SecretKey,
    pub pk: PublicKey,
}

/// A signature.
#[derive(Clone, Copy, Debug)]
pub struct Signature {
    pub sigma1: G1,
    pub sigma2: G1,
}

/// The verifier's policy secrets.
#[derive(Clone, Debug)]
pub struct PolicySecretKey {
    pub a: Scalar,
    pub b: Vec<Scalar>,
}

/// The published policy.
#[derive(Clone, Debug)]
pub struct PolicyPublicKey {
    pub ipks: Vec<PublicKey>,
    pub s: G2,
    pub vec_b: Vec<G2>,
    pub t: Vec<Vec<G2>>,
}

/// A policy with its secrets.
#[derive(Clone, Debug)]
pub struct PolicyKeyPair {
    pub psk: PolicySecretKey,
    pub ppk: PolicyPublicKey,
}

/// The proof that a policy is well formed.
#[derive(Clone, Debug)]
pub struct PolicyProof {
    pub vec_z: Vec<Scalar>,
    pub c: Scalar,
}

/// The challenge and the responses of a presentation.
#[derive(Clone, Debug)]
pub struct Proof {
    pub z_i: Vec<Scalar>,
    pub c: Scalar,
}

/// A randomized signature with the holder's policy point, the commitment
/// of the proof, and the proof for the hidden attributes.
#[derive(Clone, Debug)]
pub struct PresentationToken {
    pub sigma1: G1,
    pub sigma2: G1,
    pub sigma_tilde: G2,
    pub k: Gt,
    pub proof: Proof,
    pub len: usize,
    pub open_messages: Vec<Scalar>,
    pub reveal_index: Vec<usize>,
}

/// The random scalars of one policy: the secrets, and one more blinding
/// scalar than there are attribute positions.
#[derive(Clone, Debug)]
pub struct PolicyNonces {
    pub a: Scalar,
    pub b: Vec<Scalar>,
    pub r: Vec<Scalar>,
}

/// The random scalars of one presentation.
#[derive(Clone, Debug)]
pub struct Blinding {
    pub r_1: Scalar,
    pub r_2: Scalar,
    pub k_i: Vec<Scalar>,
}

/// The encodings of the points of each key of a list.
pub open spec fn rows(ipks: Seq<PublicKey>) -> Seq<Seq<Seq<u8>>> {
    ipks.map_values(|k: PublicKey| g2_views(k.pk_y@))
}

/// The encodings of the points of a table.
pub open spec fn table(t: Seq<Vec<G2>>) -> Seq<Seq<Seq<u8>>> {
    t.map_values(|row: Vec<G2>| g2_views(row@))
}

/// Whether every row has the given width.
pub open spec fn rectangular(rows: Seq<Seq<Seq<u8>>>, width: nat) -> bool {
    forall|i: int| 0 <= i < rows.len() ==> (#[trigger] rows[i]).len() == width
}

/// The first `n` rows as bytes, one after the other.
pub open spec fn table_bytes(rows: Seq<Seq<Seq<u8>>>, n: nat) -> Seq<u8>
    decreases n,
{
    if n == 0 {
        Seq::empty()
    } else {
        table_bytes(rows, (n - 1) as nat) + concat(rows[n - 1], rows[n - 1].len())
    }
}

/// The published policy as bytes: the keys, `s`, `vec_b`, the table.
pub open spec fn policy_bytes(ppk: PolicyPublicKey) -> Seq<u8> {
    table_bytes(rows(ppk.ipks@), ppk.ipks@.len()) + ppk.s@ + concat(g2_views(ppk.vec_b@), ppk.vec_b@.len())
        + table_bytes(table(ppk.t@), ppk.t@.len())
}

/// Whether the parameters are the ones that `par_gen` derives.
pub open spec fn derived(pp: PublicParameters) -> bool {
    &&& g1_from_hex(G1_GENERATOR_HEX) == Some(pp.g1@)
    &&& g2_from_hex(G2_GENERATOR_HEX) == Some(pp.g2@)
    &&& pp.x1@ == g1_mul(pp.g1@, SHARED_SECRET as nat)
    &&& pp.x2@ == g2_mul(pp.g2@, SHARED_SECRET as nat)
}

/// Why no signature is made with the nonce `r`, if none is.
pub open spec fn sign_error(sk: SecretKey, n: nat, r: nat) -> Option<Error> {
    if n == 0 || n > sk.y@.len() {
        Some(Error::InvalidParameter)
    } else if r == 0 {
        Some(Error::RandomnessFailure)
    } else {
        None
    }
}

/// Whether `sig` is the signature on `m` that the nonce `r` gives:
/// `(g1 * r, x1 * r + g1 * (r * sum y[i] * m[i]))`.
pub open spec fn signs(pp: PublicParameters, sk: SecretKey, m: Seq<nat>, r: nat, sig: Signature) -> bool {
    &&& sig.sigma1@ == g1_mul(pp.g1@, r)
    &&& sig.sigma2@ == g1_sum(g1_mul(pp.x1@, r), g1_mul(pp.g1@, fr_prod(r, dot(values(sk.y@), m, m.len()))))
}

/// Whether `sig` is a signature on `m` made with some nonce.
pub open spec fn signed(pp: PublicParameters, sk: SecretKey, m: Seq<nat>, sig: Signature) -> bool {
    exists|r: nat| r != 0 && #[trigger] signs(pp, sk, m, r, sig)
}

/// What verification of a signature returns.
pub open spec fn verify_outcome(pp: PublicParameters, pk: PublicKey, sig: Signature, m: Seq<nat>) -> Result<
    bool,
    Error,
> {
    if m.len() == 0 || m.len() > pk.pk_y@.len() {
        Err(Error::InvalidParameter)
    } else if pairing(sig.sigma2@, pp.g2@) == pairing(
        sig.sigma1@,
        g2_lincomb(pp.x2@, g2_views(pk.pk_y@), m, m.len()),
    ) {
        Ok(true)
    } else {
        Err(Error::SignatureVerificationFailed)
    }
}

/// The points `g2 * (b[j] * others)`.
pub open spec fn shift_points(g2: Seq<u8>, b: Seq<nat>, others: nat) -> Seq<Seq<u8>> {
    Seq::new(b.len(), |j: int| g2_mul(g2, fr_prod(b[j], others)))
}

/// The table `t[i][j] = (ipk_i[j] + g2 * b[j]) * a`.
pub open spec fn policy_table(g2: Seq<u8>, keys: Seq<Seq<Seq<u8>>>, a: nat, b: Seq<nat>) -> Seq<Seq<Seq<u8>>> {
    Seq::new(
        keys.len(),
        |i: int| Seq::new(keys[i].len(), |j: int| g2_mul(g2_sum(keys[i][j], g2_mul(g2, b[j])), a)),
    )
}

/// The commitments `g2 * (r[j + 1] * others)` of a policy proof.
pub open spec fn shift_commitments(g2: Seq<u8>, r: Seq<nat>, others: nat, width: nat) -> Seq<Seq<u8>> {
    Seq::new(width, |j: int| g2_mul(g2, fr_prod(r[j + 1], others)))
}

/// The commitments `t[i][j] * r[0] + g2 * r[j + 1]` of a policy proof.
pub open spec fn table_commitments(g2: Seq<u8>, t: Seq<Seq<Seq<u8>>>, r: Seq<nat>) -> Seq<Seq<Seq<u8>>> {
    Seq::new(
        t.len(),
        |i: int| Seq::new(t[i].len(), |j: int| g2_sum(g2_mul(t[i][j], r[0]), g2_mul(g2, r[j + 1]))),
    )
}

/// The responses of a policy proof: `r[0] + c * a^-1`, then
/// `r[j + 1] - c * b[j]`.
pub open spec fn policy_responses(r: Seq<nat>, c: nat, a_inv: nat, b: Seq<nat>) -> Seq<nat> {
    Seq::new(
        r.len(),
        |i: int|
            if i == 0 {
                fr_sum(r[0], fr_prod(c, a_inv))
            } else {
                fr_diff(r[i], fr_prod(c, b[i - 1]))
            },
    )
}

/// The points `vec_b[j] * c + g2 * (z[j + 1] * others)`, which an honest
/// policy proof makes equal to the shift commitments.
pub open spec fn shift_recomputed(g2: Seq<u8>, vec_b: Seq<Seq<u8>>, z: Seq<nat>, c: nat, others: nat) -> Seq<
    Seq<u8>,
> {
    Seq::new(vec_b.len(), |j: int| g2_sum(g2_mul(vec_b[j], c), g2_mul(g2, fr_prod(z[j + 1], others))))
}

/// The points `t[i][j] * z[0] + g2 * z[j + 1] - ipk_i[j] * c`, which an
/// honest policy proof makes equal to the table commitments.
pub open spec fn table_recomputed(
    g2: Seq<u8>,
    keys: Seq<Seq<Seq<u8>>>,
    t: Seq<Seq<Seq<u8>>>,
    z: Seq<nat>,
    c: nat,
) -> Seq<Seq<Seq<u8>>> {
    Seq::new(
        t.len(),
        |i: int|
            Seq::new(
                t[i].len(),
                |j: int|
                    g2_sum(g2_sum(g2_mul(t[i][j], z[0]), g2_mul(g2, z[j + 1])), g2_mul(keys[i][j], fr_opp(c))),
            ),
    )
}

/// The challenge of a policy proof: hashed from the policy and the three
/// groups of commitments.
pub open spec fn policy_challenge_value(
    ppk: PolicyPublicKey,
    k_s: Seq<u8>,
    k_vec_b: Seq<Seq<u8>>,
    k_t: Seq<Seq<Seq<u8>>>,
) -> nat {
    hash_to_fr_value(
        policy_bytes(ppk) + k_s + concat(k_vec_b, k_vec_b.len()) + table_bytes(k_t, k_t.len()),
        POLICY_DST.spec_bytes(),
    )
}

/// Why a list of issuer keys is refused, if it is: it is empty, or the keys
/// differ in length, or they are too long to count one more.
pub open spec fn keys_error(ipks: Seq<PublicKey>) -> Option<Error> {
    if ipks.len() == 0 || !rectangular(rows(ipks), ipks[0].pk_y@.len()) || ipks[0].pk_y@.len() >= usize::MAX {
        Some(Error::InvalidParameter)
    } else {
        None
    }
}

/// Whether a point of a key of the list is the identity.
pub open spec fn lists_identity(ipks: Seq<PublicKey>) -> bool {
    exists|i: int, j: int|
        0 <= i < ipks.len() && 0 <= j < ipks[i].pk_y@.len() && g2_is_identity(#[trigger] ipks[i].pk_y@[j]@)
}

/// Why no policy is made with the given random scalars, if none is.
pub open spec fn policy_error(ipks: Seq<PublicKey>, nonces: PolicyNonces) -> Option<Error> {
    if keys_error(ipks) is Some || nonces.b@.len() != ipks[0].pk_y@.len() || nonces.r@.len() != nonces.b@.len()
        + 1 {
        Some(Error::InvalidParameter)
    } else if lists_identity(ipks) {
        Some(Error::InvalidKey)
    } else if nonces.a@ == 0 {
        Some(Error::RandomnessFailure)
    } else {
        None
    }
}

/// Whether `(pair, proof)` is the policy that the random scalars give.
pub open spec fn policy_of(
    pp: PublicParameters,
    ipks: Seq<PublicKey>,
    nonces: PolicyNonces,
    pair: PolicyKeyPair,
    proof: PolicyProof,
) -> bool {
    let g2 = pp.g2@;
    let ppk = pair.ppk;
    let others = (ipks.len() - 1) as nat;
    let b = values(nonces.b@);
    let r = values(nonces.r@);
    &&& pair.psk.a == nonces.a
    &&& pair.psk.b@ == nonces.b@
    &&& rows(ppk.ipks@) == rows(ipks)
    &&& ppk.s@ == g2_mul(g2, nonces.a@)
    &&& g2_views(ppk.vec_b@) == shift_points(g2, b, others)
    &&& table(ppk.t@) == policy_table(g2, rows(ipks), nonces.a@, b)
    &&& proof.c@ == policy_challenge_value(
        ppk,
        g2_mul(ppk.s@, r[0]),
        shift_commitments(g2, r, others, b.len()),
        table_commitments(g2, table(ppk.t@), r),
    )
    &&& values(proof.vec_z@) == policy_responses(r, proof.c@, fr_inv(nonces.a@), b)
}

/// Why the shape of a policy is refused, if it is.
pub open spec fn policy_shape_error(ppk: PolicyPublicKey) -> Option<Error> {
    let width = ppk.vec_b@.len();
    if ppk.ipks@.len() == 0 || ppk.t@.len() != ppk.ipks@.len() || !rectangular(rows(ppk.ipks@), width)
        || !rectangular(table(ppk.t@), width) {
        Some(Error::InvalidParameter)
    } else {
        None
    }
}

/// What the audit of a policy returns.
pub open spec fn audit_outcome(pp: PublicParameters, ppk: PolicyPublicKey, proof: PolicyProof) -> Result<
    bool,
    Error,
> {
    let g2 = pp.g2@;
    let others = (ppk.ipks@.len() - 1) as nat;
    let z = values(proof.vec_z@);
    if policy_shape_error(ppk) is Some || proof.vec_z@.len() != ppk.vec_b@.len() + 1 {
        Err(Error::InvalidParameter)
    } else if proof.c@ != policy_challenge_value(
        ppk,
        g2_sum(g2_mul(ppk.s@, z[0]), g2_mul(g2, fr_opp(proof.c@))),
        shift_recomputed(g2, g2_views(ppk.vec_b@), z, proof.c@, others),
        table_recomputed(g2, rows(ppk.ipks@), table(ppk.t@), z, proof.c@),
    ) {
        Err(Error::ProofVerificationFailed(ProofCheck::Challenge))
    } else {
        Ok(true)
    }
}

/// `init` plus the points in column `col` of the first `n` rows.
pub open spec fn column_total(init: Seq<u8>, keys: Seq<Seq<Seq<u8>>>, col: int, n: nat) -> Seq<u8>
    decreases n,
{
    if n == 0 {
        init
    } else {
        g2_sum(column_total(init, keys, col, (n - 1) as nat), keys[n - 1][col])
    }
}

/// `init` plus the points in column `col` of those of the first `n` rows of
/// `t` whose key differs from the given one.
pub open spec fn column_except(
    init: Seq<u8>,
    t: Seq<Seq<Seq<u8>>>,
    keys: Seq<Seq<Seq<u8>>>,
    key: Seq<Seq<u8>>,
    col: int,
    n: nat,
) -> Seq<u8>
    decreases n,
{
    if n == 0 {
        init
    } else if keys[n - 1] == key {
        column_except(init, t, keys, key, col, (n - 1) as nat)
    } else {
        g2_sum(column_except(init, t, keys, key, col, (n - 1) as nat), t[n - 1][col])
    }
}

/// `init` plus, for each of the first `n` attribute positions `i`, the sum
/// of column `i` over the other issuers' rows of `t`, times `m[i]`.
pub open spec fn others_fold(
    init: Seq<u8>,
    zero: Seq<u8>,
    t: Seq<Seq<Seq<u8>>>,
    keys: Seq<Seq<Seq<u8>>>,
    key: Seq<Seq<u8>>,
    m: Seq<nat>,
    n: nat,
) -> Seq<u8>
    decreases n,
{
    if n == 0 {
        init
    } else {
        g2_sum(
            others_fold(init, zero, t, keys, key, m, (n - 1) as nat),
            g2_mul(column_except(zero, t, keys, key, n - 1, keys.len()), m[n - 1]),
        )
    }
}

/// `init` plus, for each of the first `n` positions `k`, the shift at index
/// `at[k]` plus all keys' points at that index, times the scalar at `k`.
pub open spec fn keyed_fold(
    init: Seq<u8>,
    shifts: Seq<Seq<u8>>,
    keys: Seq<Seq<Seq<u8>>>,
    at: Seq<usize>,
    scalars: Seq<nat>,
    n: nat,
) -> Seq<u8>
    decreases n,
{
    if n == 0 {
        init
    } else {
        g2_sum(
            keyed_fold(init, shifts, keys, at, scalars, (n - 1) as nat),
            g2_mul(column_total(shifts[at[n - 1] as int], keys, at[n - 1] as int, keys.len()), scalars[n - 1]),
        )
    }
}

/// The identity of the second group, as the generator times zero.
pub open spec fn zero_point(pp: PublicParameters) -> Seq<u8> {
    g2_mul(pp.g2@, 0)
}

/// The challenge of a presentation: hashed from the commitment, the policy,
/// the randomized signature, the holder's policy point, the disclosed
/// indices and attributes.
pub open spec fn challenge_value(ppk: PolicyPublicKey, pt: PresentationToken, k: Seq<u8>) -> nat {
    hash_to_fr_value(
        k + policy_bytes(ppk) + pt.sigma1@ + pt.sigma2@ + pt.sigma_tilde@ + index_list_bytes(
            pt.reveal_index@,
            pt.reveal_index@.len(),
        ) + concat(encodings(pt.open_messages@), pt.open_messages@.len()),
        PROOF_DST.spec_bytes(),
    )
}

/// Why a request for a presentation is refused, if it is. A holder whose
/// issuer the policy does not list is not refused: its presentation fails
/// the verifier's check of the policy.
pub open spec fn request_error(pk: PublicKey, ppk: PolicyPublicKey, n: nat, reveal: Seq<usize>) -> Option<Error> {
    if policy_shape_error(ppk) is Some || input_error(n, ppk.vec_b@.len(), reveal) is Some {
        Some(Error::InvalidParameter)
    } else {
        None
    }
}

/// Why no presentation is made with the given random scalars, if none is.
pub open spec fn prove_error(pk: PublicKey, ppk: PolicyPublicKey, n: nat, reveal: Seq<usize>, b: Blinding) -> Option<
    Error,
> {
    if request_error(pk, ppk, n, reveal) is Some || b.k_i@.len() != hidden(reveal, n).len() {
        Some(Error::InvalidParameter)
    } else if b.r_1@ == 0 {
        Some(Error::RandomnessFailure)
    } else {
        None
    }
}

/// Whether `pt` is the presentation that the random scalars give.
pub open spec fn proves(
    pp: PublicParameters,
    pk: PublicKey,
    cred: Signature,
    ppk: PolicyPublicKey,
    m: Seq<Scalar>,
    reveal: Seq<usize>,
    b: Blinding,
    pt: PresentationToken,
) -> bool {
    let n = m.len();
    let reveal = disclosed(reveal, n);
    let hide = hidden(reveal, n);
    let keys = rows(ppk.ipks@);
    let c = pt.proof.c@;
    &&& pt.len == n
    &&& pt.reveal_index@ == reveal
    &&& pt.open_messages@ == selected(m, reveal)
    &&& pt.sigma1@ == g1_mul(cred.sigma1@, b.r_1@)
    &&& pt.sigma2@ == g1_sum(g1_mul(cred.sigma2@, b.r_1@), g1_mul(pt.sigma1@, fr_opp(b.r_2@)))
    &&& pt.sigma_tilde@ == others_fold(
        g2_mul(ppk.s@, b.r_2@),
        zero_point(pp),
        table(ppk.t@),
        keys,
        g2_views(pk.pk_y@),
        values(m),
        n,
    )
    &&& pt.k@ == pairing(
        pt.sigma1@,
        keyed_fold(zero_point(pp), g2_views(ppk.vec_b@), keys, hide, values(b.k_i@), hide.len()),
    )
    &&& c == challenge_value(ppk, pt, pt.k@)
    &&& values(pt.proof.z_i@) == masked_plus(values(b.k_i@), c, values(selected(m, hide)))
}

/// Why the shape of a presentation is refused, if it is.
pub open spec fn shape_error(pair: PolicyKeyPair, pt: PresentationToken) -> Option<Error> {
    let ppk = pair.ppk;
    if policy_shape_error(ppk) is Some || pair.psk.b@.len() != ppk.vec_b@.len() || disclosure_error(
        pt.len as nat,
        ppk.vec_b@.len(),
        pt.reveal_index@,
    ) is Some || pt.open_messages@.len() != pt.reveal_index@.len() || pt.proof.z_i@.len() != hidden(
        pt.reveal_index@,
        pt.len as nat,
    ).len() || g1_is_identity(pt.sigma1@) {
        Some(Error::InvalidParameter)
    } else {
        None
    }
}

/// The commitment that a verifier recomputes from a presentation with the
/// policy's secrets.
pub open spec fn recomputed_commitment(pp: PublicParameters, pair: PolicyKeyPair, pt: PresentationToken) -> Seq<
    u8,
> {
    let g2 = pp.g2@;
    let ppk = pair.ppk;
    let keys = rows(ppk.ipks@);
    let c = pt.proof.c@;
    let hide = hidden(pt.reveal_index@, pt.len as nat);
    let shifts = shift_points(g2, values(pair.psk.b@), (ppk.ipks@.len() - 1) as nat);
    let start = g2_sum(g2_mul(pp.x2@, fr_opp(1)), g2_mul(pt.sigma_tilde@, fr_inv(pair.psk.a@)));
    let t_input = g2_mul(
        keyed_fold(
            start,
            shifts,
            keys,
            pt.reveal_index@,
            negated(values(pt.open_messages@)),
            pt.reveal_index@.len(),
        ),
        fr_opp(c),
    );
    gt_sum(
        gt_sum(pairing(pt.sigma2@, g2_mul(g2, fr_opp(c))), pairing(pt.sigma1@, t_input)),
        pairing(pt.sigma1@, keyed_fold(zero_point(pp), shifts, keys, hide, values(pt.proof.z_i@), hide.len())),
    )
}

/// What the check of a presentation returns.
pub open spec fn proof_outcome(pp: PublicParameters, pt: PresentationToken, pair: PolicyKeyPair) -> Result<
    bool,
    Error,
> {
    if shape_error(pair, pt) is Some {
        Err(Error::InvalidParameter)
    } else if pair.psk.a@ == 0 {
        Err(Error::InvalidKey)
    } else if pt.proof.c@ != challenge_value(pair.ppk, pt, pt.k@) {
        Err(Error::ProofVerificationFailed(ProofCheck::Challenge))
    } else if recomputed_commitment(pp, pair, pt) != pt.k@ {
        Err(Error::ProofVerificationFailed(ProofCheck::PolicyBinding))
    } else {
        Ok(true)
    }
}

/// Why no parameters are derived, if none are: a published encoding does
/// not decode, or a generator or a fixed point is the identity, or the two
/// of one group are the same.
pub open spec fn par_gen_error() -> Option<Error> {
    match (g1_from_hex(G1_GENERATOR_HEX), g2_from_hex(G2_GENERATOR_HEX)) {
        (Some(g1), Some(g2)) => if distinct_g1(seq![g1, g1_mul(g1, SHARED_SECRET as nat)]) && distinct_g2(
            seq![g2, g2_mul(g2, SHARED_SECRET as nat)],
        ) {
            None
        } else {
            Some(Error::InvalidParameter)
        },
        _ => Some(Error::InvalidEncoding),
    }
}

/// Whether no point of the parameters is the identity and the two of each
/// group differ.
pub open spec fn sound(pp: PublicParameters) -> bool {
    &&& distinct_g1(seq![pp.g1@, pp.x1@])
    &&& distinct_g2(seq![pp.g2@, pp.x2@])
}

/// Derives the parameters and checks that no point of them is the identity
/// and that the two of each group differ.
pub fn par_gen() -> (r: Result<PublicParameters, Error>)
    ensures
        match r {
            Ok(pp) => par_gen_error() is None && derived(pp) && sound(pp),
            Err(e) => par_gen_error() == Some(e),
        },
{
    let g1 = match decode_g1_hex(G1_GENERATOR_HEX) {
        Ok(p) => p,
        Err(e) => {
            return Err(e);
        },
    };
    let g2 = match decode_g2_hex(G2_GENERATOR_HEX) {
        Ok(p) => p,
        Err(e) => {
            return Err(e);
        },
    };
    let x = Scalar::from_u64(SHARED_SECRET);
    let x1 = g1_scale(&g1, &x);
    let x2 = g2_scale(&g2, &x);
    let all1 = vec![g1, x1];
    let all2 = vec![g2, x2];
    assert(g1_views(all1@) =~= seq![g1@, x1@]);
    assert(g2_views(all2@) =~= seq![g2@, x2@]);
    if !check_distinct_g1(&all1) || !check_distinct_g2(&all2) {
        return Err(Error::InvalidParameter);
    }
    Ok(PublicParameters { g1, g2, x1, x2 })
}

/// The key pair of a given secret.
pub fn key_pair_from(pp: &PublicParameters, sk: SecretKey) -> (r: KeyPair)
    ensures
        r.sk == sk,
        r.pk.pk_y@.len() == sk.y@.len(),
        g2_views(r.pk.pk_y@) == public_points(pp.g2@, values(sk.y@)),
{
    let pk_y = make_public_points(&pp.g2, &sk.y);
    KeyPair { sk, pk: PublicKey { pk_y } }
}

/// A fresh key pair for `MAX_ATTRIBUTES` attribute positions.
pub fn key_gen(pp: &PublicParameters) -> (r: Result<KeyPair, Error>)
    ensures
        match r {
            Ok(pair) => {
                &&& pair.sk.y@.len() == MAX_ATTRIBUTES
                &&& forall|i: int| 0 <= i < pair.sk.y@.len() ==> (#[trigger] pair.sk.y@[i])@ != 0
                &&& pair.pk.pk_y@.len() == MAX_ATTRIBUTES
                &&& g2_views(pair.pk.pk_y@) == public_points(pp.g2@, values(pair.sk.y@))
            },
            Err(e) => e == Error::RandomnessFailure,
        },
{
    let y = match random_nonzero_scalars(MAX_ATTRIBUTES) {
        Ok(v) => v,
        Err(e) => {
            return Err(e);
        },
    };
    Ok(key_pair_from(pp, SecretKey { y }))
}

/// The signature on the attributes that the nonce `r` gives.
pub fn sign_with(pp: &PublicParameters, sk: &SecretKey, messages: &Vec<Scalar>, r: &Scalar) -> (out: Result<
    Signature,
    Error,
>)
    ensures
        match out {
            Ok(sig) => sign_error(*sk, messages@.len(), r@) is None && signs(*pp, *sk, values(messages@), r@, sig),
            Err(e) => sign_error(*sk, messages@.len(), r@) == Some(e),
        },
{
    if messages.len() == 0 || messages.len() > sk.y.len() {
        return Err(Error::InvalidParameter);
    }
    if r.is_zero() {
        return Err(Error::RandomnessFailure);
    }
    let sigma1 = g1_scale(&pp.g1, r);
    let sum = inner_product(&sk.y, messages);
    assert(values(messages@).len() == messages@.len());
    let exponent = fr_mul(r, &sum);
    let sigma2 = g1_add(&g1_scale(&pp.x1, r), &g1_scale(&pp.g1, &exponent));
    Ok(Signature { sigma1, sigma2 })
}

/// A signature on the attributes under a fresh nonce.
pub fn sign(pp: &PublicParameters, sk: &SecretKey, messages: &Vec<Scalar>) -> (out: Result<Signature, Error>)
    ensures
        match out {
            Ok(sig) => 1 <= messages@.len() <= sk.y@.len() && signed(*pp, *sk, values(messages@), sig),
            Err(e) => if messages@.len() == 0 || messages@.len() > sk.y@.len() {
                e == Error::InvalidParameter
            } else {
                e == Error::RandomnessFailure
            },
        },
{
    if messages.len() == 0 || messages.len() > sk.y.len() {
        return Err(Error::InvalidParameter);
    }
    match Scalar::random_nonzero() {
        Ok(r) => sign_with(pp, sk, messages, &r),
        Err(e) => Err(e),
    }
}

/// Checks a signature on the attributes under a public key.
pub fn verify_sign(pp: &PublicParameters, pk: &PublicKey, signature: &Signature, messages: &Vec<Scalar>) -> (r:
    Result<bool, Error>)
    ensures
        r == verify_outcome(*pp, *pk, *signature, values(messages@)),
{
    assert(values(messages@).len() == messages@.len());
    if messages.len() == 0 || messages.len() > pk.pk_y.len() {
        return Err(Error::InvalidParameter);
    }
    let key = g2_combine(&pp.x2, &pk.pk_y, messages, messages.len());
    let left = pair(&signature.sigma2, &pp.g2);
    let right = pair(&signature.sigma1, &key);
    if left.same(&right) {
        Ok(true)
    } else {
        Err(Error::SignatureVerificationFailed)
    }
}

/// Whether two lists of points are the same.
pub fn same_points(a: &Vec<G2>, b: &Vec<G2>) -> (r: bool)
    ensures
        r == (g2_views(a@) == g2_views(b@)),
{
    if a.len() != b.len() {
        assert(g2_views(a@).len() != g2_views(b@).len());
        return false;
    }
    let mut i: usize = 0;
    while i < a.len()
        invariant
            i <= a.len(),
            a.len() == b.len(),
            forall|j: int| 0 <= j < i ==> a[j]@ == b[j]@,
        decreases a.len() - i,
    {
        if !a[i].same(&b[i]) {
            assert(g2_views(a@)[i as int] != g2_views(b@)[i as int]);
            return false;
        }
        i += 1;
    }
    assert(g2_views(a@) =~= g2_views(b@));
    true
}

/// Whether every key of a list has the given number of points.
pub fn keys_have_width(ipks: &Vec<PublicKey>, width: usize) -> (r: bool)
    ensures
        r == rectangular(rows(ipks@), width as nat),
{
    let mut i: usize = 0;
    while i < ipks.len()
        invariant
            i <= ipks.len(),
            forall|j: int| 0 <= j < i ==> (#[trigger] rows(ipks@)[j]).len() == width,
        decreases ipks.len() - i,
    {
        if ipks[i].pk_y.len() != width {
            assert(rows(ipks@)[i as int].len() != width);
            return false;
        }
        i += 1;
    }
    true
}

/// Whether no point of a key of the list is the identity.
pub fn check_keys(ipks: &Vec<PublicKey>) -> (r: bool)
    ensures
        r == !lists_identity(ipks@),
{
    let mut i: usize = 0;
    while i < ipks.len()
        invariant
            i <= ipks.len(),
            forall|k: int, j: int|
                0 <= k < i && 0 <= j < ipks@[k].pk_y@.len() ==> !g2_is_identity(#[trigger] ipks@[k].pk_y@[j]@),
        decreases ipks.len() - i,
    {
        let key = &ipks[i].pk_y;
        let mut j: usize = 0;
        while j < key.len()
            invariant
                j <= key.len(),
                i < ipks.len(),
                key@ == ipks@[i as int].pk_y@,
                forall|l: int| 0 <= l < j ==> !g2_is_identity(#[trigger] key@[l]@),
            decreases key.len() - j,
        {
            if key[j].is_identity() {
                assert(g2_is_identity(ipks@[i as int].pk_y@[j as int]@));
                return false;
            }
            j += 1;
        }
        i += 1;
    }
    true
}

/// Whether every row of a table has the given number of points.
pub fn table_has_width(t: &Vec<Vec<G2>>, width: usize) -> (r: bool)
    ensures
        r == rectangular(table(t@), width as nat),
{
    let mut i: usize = 0;
    while i < t.len()
        invariant
            i <= t.len(),
            forall|j: int| 0 <= j < i ==> (#[trigger] table(t@)[j]).len() == width,
        decreases t.len() - i,
    {
        if t[i].len() != width {
            assert(table(t@)[i as int].len() != width);
            return false;
        }
        i += 1;
    }
    true
}

/// Whether the shape of a policy is accepted.
pub fn check_policy_shape(ppk: &PolicyPublicKey) -> (r: bool)
    ensures
        r == (policy_shape_error(*ppk) is None),
{
    let width = ppk.vec_b.len();
    if ppk.ipks.len() == 0 || ppk.t.len() != ppk.ipks.len() {
        return false;
    }
    keys_have_width(&ppk.ipks, width) && table_has_width(&ppk.t, width)
}

/// Appends the points of every key of a list.
pub fn absorb_keys(buf: &mut Vec<u8>, ipks: &Vec<PublicKey>)
    ensures
        final(buf)@ == old(buf)@ + table_bytes(rows(ipks@), ipks@.len()),
{
    let mut i: usize = 0;
    while i < ipks.len()
        invariant
            i <= ipks.len(),
            buf@ == old(buf)@ + table_bytes(rows(ipks@), i as nat),
        decreases ipks.len() - i,
    {
        absorb_g2_list(buf, &ipks[i].pk_y, ipks[i].pk_y.len());
        assert(rows(ipks@)[i as int] == g2_views(ipks[i as int].pk_y@));
        assert(g2_views(ipks[i as int].pk_y@).len() == ipks[i as int].pk_y@.len());
        i += 1;
        assert(buf@ =~= old(buf)@ + table_bytes(rows(ipks@), i as nat));
    }
}

/// Appends the points of every row of a table.
pub fn absorb_table(buf: &mut Vec<u8>, t: &Vec<Vec<G2>>)
    ensures
        final(buf)@ == old(buf)@ + table_bytes(table(t@), t@.len()),
{
    let mut i: usize = 0;
    while i < t.len()
        invariant
            i <= t.len(),
            buf@ == old(buf)@ + table_bytes(table(t@), i as nat),
        decreases t.len() - i,
    {
        absorb_g2_list(buf, &t[i], t[i].len());
        assert(table(t@)[i as int] == g2_views(t[i as int]@));
        assert(g2_views(t[i as int]@).len() == t[i as int]@.len());
        i += 1;
        assert(buf@ =~= old(buf)@ + table_bytes(table(t@), i as nat));
    }
}

/// Appends a published policy.
pub fn absorb_policy(buf: &mut Vec<u8>, ppk: &PolicyPublicKey)
    ensures
        final(buf)@ == old(buf)@ + policy_bytes(*ppk),
{
    absorb_keys(buf, &ppk.ipks);
    absorb_g2(buf, &ppk.s);
    absorb_g2_list(buf, &ppk.vec_b, ppk.vec_b.len());
    assert(g2_views(ppk.vec_b@).len() == ppk.vec_b@.len());
    absorb_table(buf, &ppk.t);
    assert(buf@ =~= old(buf)@ + policy_bytes(*ppk));
}

/// The challenge of a policy proof.
pub fn policy_challenge(ppk: &PolicyPublicKey, k_s: &G2, k_vec_b: &Vec<G2>, k_t: &Vec<Vec<G2>>) -> (r: Scalar)
    ensures
        r@ == policy_challenge_value(*ppk, k_s@, g2_views(k_vec_b@), table(k_t@)),
{
    let mut buf: Vec<u8> = Vec::new();
    absorb_policy(&mut buf, ppk);
    absorb_g2(&mut buf, k_s);
    absorb_g2_list(&mut buf, k_vec_b, k_vec_b.len());
    assert(g2_views(k_vec_b@).len() == k_vec_b@.len());
    absorb_table(&mut buf, k_t);
    assert(table(k_t@).len() == k_t@.len());
    assert(buf@ =~= policy_bytes(*ppk) + k_s@ + concat(g2_views(k_vec_b@), k_vec_b@.len()) + table_bytes(
        table(k_t@),
        k_t@.len(),
    ));
    hash_to_fr(buf.as_slice(), POLICY_DST.as_bytes())
}

/// The points `g2 * (b[j] * others)`.
pub fn make_shift_points(g2: &G2, b: &Vec<Scalar>, others: &Scalar) -> (r: Vec<G2>)
    ensures
        r.len() == b.len(),
        g2_views(r@) == shift_points(g2@, values(b@), others@),
{
    let mut out: Vec<G2> = Vec::new();
    let mut j: usize = 0;
    while j < b.len()
        invariant
            j <= b.len(),
            out.len() == j,
            forall|k: int| 0 <= k < j ==> out[k]@ == g2_mul(g2@, fr_prod(b[k]@, others@)),
        decreases b.len() - j,
    {
        out.push(g2_scale(g2, &fr_mul(&b[j], others)));
        j += 1;
    }
    assert(g2_views(out@) =~= shift_points(g2@, values(b@), others@));
    out
}

/// One row `(key[j] + g2 * b[j]) * a` of the policy table.
pub(crate) fn make_policy_row(g2: &G2, key: &Vec<G2>, a: &Scalar, b: &Vec<Scalar>) -> (r: Vec<G2>)
    requires
        key.len() <= b.len(),
    ensures
        r.len() == key.len(),
        g2_views(r@) == Seq::new(
            key@.len(),
            |j: int| g2_mul(g2_sum(g2_views(key@)[j], g2_mul(g2@, values(b@)[j])), a@),
        ),
{
    let mut out: Vec<G2> = Vec::new();
    let mut j: usize = 0;
    while j < key.len()
        invariant
            j <= key.len() <= b.len(),
            out.len() == j,
            forall|k: int| 0 <= k < j ==> out[k]@ == g2_mul(g2_sum(key[k]@, g2_mul(g2@, b[k]@)), a@),
        decreases key.len() - j,
    {
        let shifted = g2_add(&key[j], &g2_scale(g2, &b[j]));
        out.push(g2_scale(&shifted, a));
        j += 1;
    }
    assert(g2_views(out@) =~= Seq::new(
        key@.len(),
        |j: int| g2_mul(g2_sum(g2_views(key@)[j], g2_mul(g2@, values(b@)[j])), a@),
    ));
    out
}

/// The table `t[i][j] = (ipk_i[j] + g2 * b[j]) * a`.
pub(crate) fn make_policy_table(g2: &G2, ipks: &Vec<PublicKey>, a: &Scalar, b: &Vec<Scalar>) -> (r: Vec<Vec<G2>>)
    requires
        rectangular(rows(ipks@), b@.len()),
    ensures
        r.len() == ipks.len(),
        table(r@) == policy_table(g2@, rows(ipks@), a@, values(b@)),
{
    let mut out: Vec<Vec<G2>> = Vec::new();
    let mut i: usize = 0;
    while i < ipks.len()
        invariant
            i <= ipks.len(),
            rectangular(rows(ipks@), b@.len()),
            out.len() == i,
            forall|k: int|
                0 <= k < i ==> #[trigger] table(out@)[k] == policy_table(g2@, rows(ipks@), a@, values(b@))[k],
        decreases ipks.len() - i,
    {
        assert(rows(ipks@)[i as int].len() == b@.len());
        let row = make_policy_row(g2, &ipks[i].pk_y, a, b);
        proof {
            assert(g2_views(row@) =~= policy_table(g2@, rows(ipks@), a@, values(b@))[i as int]);
        }
        let ghost before = out@;
        out.push(row);
        proof {
            assert forall|k: int| 0 <= k < i + 1 implies #[trigger] table(out@)[k] == policy_table(
                g2@,
                rows(ipks@),
                a@,
                values(b@),
            )[k] by {
                if k < i {
                    assert(table(out@)[k] == table(before)[k]);
                }
            }
        }
        i += 1;
    }
    assert(table(out@) =~= policy_table(g2@, rows(ipks@), a@, values(b@)));
    out
}

/// The commitments `g2 * (r[j + 1] * others)` of a policy proof.
pub(crate) fn make_shift_commitments(g2: &G2, r: &Vec<Scalar>, others: &Scalar, width: usize) -> (out: Vec<G2>)
    requires
        r.len() == width + 1,
    ensures
        out.len() == width,
        g2_views(out@) == shift_commitments(g2@, values(r@), others@, width as nat),
{
    let mut out: Vec<G2> = Vec::new();
    let mut j: usize = 0;
    while j < width
        invariant
            j <= width,
            r.len() == width + 1,
            out.len() == j,
            forall|k: int| 0 <= k < j ==> out[k]@ == g2_mul(g2@, fr_prod(r[k + 1]@, others@)),
        decreases width - j,
    {
        out.push(g2_scale(g2, &fr_mul(&r[j + 1], others)));
        j += 1;
    }
    assert(g2_views(out@) =~= shift_commitments(g2@, values(r@), others@, width as nat));
    out
}

/// One row `t[j] * r[0] + g2 * r[j + 1]` of the table commitments.
pub(crate) fn make_commitment_row(g2: &G2, row: &Vec<G2>, r: &Vec<Scalar>) -> (out: Vec<G2>)
    requires
        r.len() == row.len() + 1,
    ensures
        out.len() == row.len(),
        g2_views(out@) == Seq::new(
            row@.len(),
            |j: int| g2_sum(g2_mul(g2_views(row@)[j], values(r@)[0]), g2_mul(g2@, values(r@)[j + 1])),
        ),
{
    let mut out: Vec<G2> = Vec::new();
    let mut j: usize = 0;
    while j < row.len()
        invariant
            j <= row.len(),
            r.len() == row.len() + 1,
            out.len() == j,
            forall|k: int| 0 <= k < j ==> out[k]@ == g2_sum(g2_mul(row[k]@, r[0]@), g2_mul(g2@, r[k + 1]@)),
        decreases row.len() - j,
    {
        let scaled = g2_scale(&row[j], &r[0]);
        out.push(g2_add(&scaled, &g2_scale(g2, &r[j + 1])));
        j += 1;
    }
    assert(g2_views(out@) =~= Seq::new(
        row@.len(),
        |j: int| g2_sum(g2_mul(g2_views(row@)[j], values(r@)[0]), g2_mul(g2@, values(r@)[j + 1])),
    ));
    out
}

/// The commitments `t[i][j] * r[0] + g2 * r[j + 1]` of a policy proof.
pub(crate) fn make_table_commitments(g2: &G2, t: &Vec<Vec<G2>>, r: &Vec<Scalar>) -> (out: Vec<Vec<G2>>)
    requires
        r@.len() >= 1,
        rectangular(table(t@), (r@.len() - 1) as nat),
    ensures
        out.len() == t.len(),
        table(out@) == table_commitments(g2@, table(t@), values(r@)),
{
    let mut out: Vec<Vec<G2>> = Vec::new();
    let mut i: usize = 0;
    while i < t.len()
        invariant
            i <= t.len(),
            r@.len() >= 1,
            rectangular(table(t@), (r@.len() - 1) as nat),
            out.len() == i,
            forall|k: int|
                0 <= k < i ==> #[trigger] table(out@)[k] == table_commitments(g2@, table(t@), values(r@))[k],
        decreases t.len() - i,
    {
        assert(table(t@)[i as int].len() == r@.len() - 1);
        let row = make_commitment_row(g2, &t[i], r);
        proof {
            assert(g2_views(row@) =~= table_commitments(g2@, table(t@), values(r@))[i as int]);
        }
        let ghost before = out@;
        out.push(row);
        proof {
            assert forall|k: int| 0 <= k < i + 1 implies #[trigger] table(out@)[k] == table_commitments(
                g2@,
                table(t@),
                values(r@),
            )[k] by {
                if k < i {
                    assert(table(out@)[k] == table(before)[k]);
                }
            }
        }
        i += 1;
    }
    assert(table(out@) =~= table_commitments(g2@, table(t@), values(r@)));
    out
}

/// The responses of a policy proof.
pub(crate) fn make_policy_responses(r: &Vec<Scalar>, c: &Scalar, a_inv: &Scalar, b: &Vec<Scalar>) -> (out: Vec<Scalar>)
    requires
        r.len() == b.len() + 1,
    ensures
        values(out@) == policy_responses(values(r@), c@, a_inv@, values(b@)),
{
    let mut out: Vec<Scalar> = Vec::new();
    out.push(fr_add(&r[0], &fr_mul(c, a_inv)));
    let mut i: usize = 1;
    while i < r.len()
        invariant
            1 <= i <= r.len(),
            r.len() == b.len() + 1,
            out.len() == i,
            out[0]@ == fr_sum(r[0]@, fr_prod(c@, a_inv@)),
            forall|k: int| 1 <= k < i ==> out[k]@ == fr_diff(r[k]@, fr_prod(c@, b[k - 1]@)),
        decreases r.len() - i,
    {
        out.push(fr_sub(&r[i], &fr_mul(c, &b[i - 1])));
        i += 1;
    }
    assert(values(out@) =~= policy_responses(values(r@), c@, a_inv@, values(b@)));
    out
}

/// The number of other issuers of a non-empty list, as a scalar.
pub(crate) fn others_scalar(k: usize) -> (r: Scalar)
    requires
        k >= 1,
    ensures
        r@ == k - 1,
{
    Scalar::from_u64((k - 1) as u64)
}

/// A copy of a list of keys.
pub fn copy_keys(ipks: &Vec<PublicKey>) -> (r: Vec<PublicKey>)
    ensures
        r.len() == ipks.len(),
        rows(r@) == rows(ipks@),
{
    let mut out: Vec<PublicKey> = Vec::new();
    let mut i: usize = 0;
    while i < ipks.len()
        invariant
            i <= ipks.len(),
            out.len() == i,
            forall|k: int| 0 <= k < i ==> #[trigger] rows(out@)[k] == rows(ipks@)[k],
        decreases ipks.len() - i,
    {
        let ghost before = out@;
        out.push(PublicKey { pk_y: copy_list(&ipks[i].pk_y) });
        proof {
            assert forall|k: int| 0 <= k < i + 1 implies #[trigger] rows(out@)[k] == rows(ipks@)[k] by {
                if k < i {
                    assert(rows(out@)[k] == rows(before)[k]);
                }
            }
        }
        i += 1;
    }
    assert(rows(out@) =~= rows(ipks@));
    out
}

/// The policy on a non-empty list of issuer keys that the given random
/// scalars give.
pub fn set_policy_with(pp: &PublicParameters, ipks: &Vec<PublicKey>, nonces: &PolicyNonces) -> (r: Result<
    (PolicyKeyPair, PolicyProof),
    Error,
>)
    ensures
        match r {
            Ok(made) => policy_error(ipks@, *nonces) is None && policy_of(*pp, ipks@, *nonces, made.0, made.1),
            Err(e) => policy_error(ipks@, *nonces) == Some(e),
        },
        r matches Ok(made) ==> made.0.psk.a@ != 0 && made.0.ppk.ipks@.len() == ipks@.len(),
{
    if ipks.len() == 0 {
        return Err(Error::InvalidParameter);
    }
    let width = ipks[0].pk_y.len();
    if !keys_have_width(ipks, width) || width == usize::MAX {
        return Err(Error::InvalidParameter);
    }
    if nonces.b.len() != width || nonces.r.len() != width + 1 {
        return Err(Error::InvalidParameter);
    }
    if !check_keys(ipks) {
        return Err(Error::InvalidKey);
    }
    let a_inv = match nonces.a.invert() {
        Some(i) => i,
        None => {
            return Err(Error::RandomnessFailure);
        },
    };
    let others = others_scalar(ipks.len());
    let vec_b = make_shift_points(&pp.g2, &nonces.b, &others);
    let s = g2_scale(&pp.g2, &nonces.a);
    let t = make_policy_table(&pp.g2, ipks, &nonces.a, &nonces.b);
    let ppk = PolicyPublicKey { ipks: copy_keys(ipks), s, vec_b, t };

    let k_s = g2_scale(&s, &nonces.r[0]);
    let k_vec_b = make_shift_commitments(&pp.g2, &nonces.r, &others, width);
    proof {
        assert(values(nonces.b@).len() == width);
        assert forall|i: int| 0 <= i < table(ppk.t@).len() implies (#[trigger] table(ppk.t@)[i]).len()
            == width by {
            assert(rows(ipks@)[i].len() == width);
        }
    }
    let k_t = make_table_commitments(&pp.g2, &ppk.t, &nonces.r);
    let c = policy_challenge(&ppk, &k_s, &k_vec_b, &k_t);
    let vec_z = make_policy_responses(&nonces.r, &c, &a_inv, &nonces.b);
    let psk = PolicySecretKey { a: nonces.a, b: copy_list(&nonces.b) };
    Ok((PolicyKeyPair { psk, ppk }, PolicyProof { vec_z, c }))
}

/// A policy on a non-empty list of issuer keys, under fresh secrets.
pub fn set_policy(pp: &PublicParameters, ipks: &Vec<PublicKey>) -> (r: Result<(PolicyKeyPair, PolicyProof), Error>)
    ensures
        match r {
            Ok(made) => exists|nonces: PolicyNonces|
                policy_error(ipks@, nonces) is None && #[trigger] policy_of(*pp, ipks@, nonces, made.0, made.1),
            Err(e) => if keys_error(ipks@) is Some {
                e == Error::InvalidParameter
            } else if lists_identity(ipks@) {
                e == Error::InvalidKey
            } else {
                e == Error::RandomnessFailure
            },
        },
        r matches Ok(made) ==> made.0.psk.a@ != 0 && made.0.ppk.ipks@.len() == ipks@.len(),
{
    if ipks.len() == 0 {
        return Err(Error::InvalidParameter);
    }
    let width = ipks[0].pk_y.len();
    if !keys_have_width(ipks, width) || width == usize::MAX {
        return Err(Error::InvalidParameter);
    }
    if !check_keys(ipks) {
        return Err(Error::InvalidKey);
    }
    let a = match Scalar::random_nonzero() {
        Ok(s) => s,
        Err(e) => {
            return Err(e);
        },
    };
    let nonces = PolicyNonces { a, b: random_scalars(width), r: random_scalars(width + 1) };
    set_policy_with(pp, ipks, &nonces)
}

/// The points `vec_b[j] * c + g2 * (z[j + 1] * others)`.
pub(crate) fn recompute_shift_commitments(g2: &G2, vec_b: &Vec<G2>, z: &Vec<Scalar>, c: &Scalar, others: &Scalar) -> (out:
    Vec<G2>)
    requires
        z.len() == vec_b.len() + 1,
    ensures
        out.len() == vec_b.len(),
        g2_views(out@) == shift_recomputed(g2@, g2_views(vec_b@), values(z@), c@, others@),
{
    let mut out: Vec<G2> = Vec::new();
    let mut j: usize = 0;
    while j < vec_b.len()
        invariant
            j <= vec_b.len(),
            z.len() == vec_b.len() + 1,
            out.len() == j,
            forall|k: int|
                0 <= k < j ==> out[k]@ == g2_sum(
                    g2_mul(vec_b[k]@, c@),
                    g2_mul(g2@, fr_prod(z[k + 1]@, others@)),
                ),
        decreases vec_b.len() - j,
    {
        let scaled = g2_scale(&vec_b[j], c);
        out.push(g2_add(&scaled, &g2_scale(g2, &fr_mul(&z[j + 1], others))));
        j += 1;
    }
    assert(g2_views(out@) =~= shift_recomputed(g2@, g2_views(vec_b@), values(z@), c@, others@));
    out
}

/// One row `t[j] * z[0] + g2 * z[j + 1] - key[j] * c`.
pub(crate) fn recompute_commitment_row(g2: &G2, key: &Vec<G2>, row: &Vec<G2>, z: &Vec<Scalar>, c: &Scalar) -> (out: Vec<
    G2,
>)
    requires
        key.len() == row.len(),
        z.len() == row.len() + 1,
    ensures
        out.len() == row.len(),
        g2_views(out@) == Seq::new(
            row@.len(),
            |j: int|
                g2_sum(
                    g2_sum(g2_mul(g2_views(row@)[j], values(z@)[0]), g2_mul(g2@, values(z@)[j + 1])),
                    g2_mul(g2_views(key@)[j], fr_opp(c@)),
                ),
        ),
{
    let minus_c = fr_neg(c);
    let mut out: Vec<G2> = Vec::new();
    let mut j: usize = 0;
    while j < row.len()
        invariant
            j <= row.len(),
            key.len() == row.len(),
            z.len() == row.len() + 1,
            minus_c@ == fr_opp(c@),
            out.len() == j,
            forall|k: int|
                0 <= k < j ==> out[k]@ == g2_sum(
                    g2_sum(g2_mul(row[k]@, z[0]@), g2_mul(g2@, z[k + 1]@)),
                    g2_mul(key[k]@, fr_opp(c@)),
                ),
        decreases row.len() - j,
    {
        let scaled = g2_scale(&row[j], &z[0]);
        let sum = g2_add(&scaled, &g2_scale(g2, &z[j + 1]));
        out.push(g2_add(&sum, &g2_scale(&key[j], &minus_c)));
        j += 1;
    }
    assert(g2_views(out@) =~= Seq::new(
        row@.len(),
        |j: int|
            g2_sum(
                g2_sum(g2_mul(g2_views(row@)[j], values(z@)[0]), g2_mul(g2@, values(z@)[j + 1])),
                g2_mul(g2_views(key@)[j], fr_opp(c@)),
            ),
    ));
    out
}

/// The points `t[i][j] * z[0] + g2 * z[j + 1] - ipk_i[j] * c`.
pub(crate) fn recompute_table_commitments(g2: &G2, ppk: &PolicyPublicKey, z: &Vec<Scalar>, c: &Scalar) -> (out: Vec<
    Vec<G2>,
>)
    requires
        policy_shape_error(*ppk) is None,
        z.len() == ppk.vec_b.len() + 1,
    ensures
        out.len() == ppk.t.len(),
        table(out@) == table_recomputed(g2@, rows(ppk.ipks@), table(ppk.t@), values(z@), c@),
{
    let mut out: Vec<Vec<G2>> = Vec::new();
    let mut i: usize = 0;
    while i < ppk.t.len()
        invariant
            i <= ppk.t.len(),
            policy_shape_error(*ppk) is None,
            z.len() == ppk.vec_b.len() + 1,
            out.len() == i,
            forall|k: int|
                0 <= k < i ==> #[trigger] table(out@)[k] == table_recomputed(
                    g2@,
                    rows(ppk.ipks@),
                    table(ppk.t@),
                    values(z@),
                    c@,
                )[k],
        decreases ppk.t.len() - i,
    {
        assert(table(ppk.t@)[i as int].len() == ppk.vec_b@.len());
        assert(rows(ppk.ipks@)[i as int].len() == ppk.vec_b@.len());
        let row = recompute_commitment_row(g2, &ppk.ipks[i].pk_y, &ppk.t[i], z, c);
        proof {
            assert(g2_views(row@) =~= table_recomputed(
                g2@,
                rows(ppk.ipks@),
                table(ppk.t@),
                values(z@),
                c@,
            )[i as int]);
        }
        let ghost before = out@;
        out.push(row);
        proof {
            assert forall|k: int| 0 <= k < i + 1 implies #[trigger] table(out@)[k] == table_recomputed(
                g2@,
                rows(ppk.ipks@),
                table(ppk.t@),
                values(z@),
                c@,
            )[k] by {
                if k < i {
                    assert(table(out@)[k] == table(before)[k]);
                }
            }
        }
        i += 1;
    }
    assert(table(out@) =~= table_recomputed(g2@, rows(ppk.ipks@), table(ppk.t@), values(z@), c@));
    out
}

/// Checks that a published policy is well formed.
pub fn audit_policy(pp: &PublicParameters, ppk: &PolicyPublicKey, proof: &PolicyProof) -> (r: Result<bool, Error>)
    ensures
        r == audit_outcome(*pp, *ppk, *proof),
{
    if !check_policy_shape(ppk) {
        return Err(Error::InvalidParameter);
    }
    let responses = proof.vec_z.len();
    if ppk.vec_b.len() == usize::MAX || responses != ppk.vec_b.len() + 1 {
        return Err(Error::InvalidParameter);
    }
    let others = others_scalar(ppk.ipks.len());
    let minus_c = fr_neg(&proof.c);
    let k_s = g2_add(&g2_scale(&ppk.s, &proof.vec_z[0]), &g2_scale(&pp.g2, &minus_c));
    let k_vec_b = recompute_shift_commitments(&pp.g2, &ppk.vec_b, &proof.vec_z, &proof.c, &others);
    let k_t = recompute_table_commitments(&pp.g2, ppk, &proof.vec_z, &proof.c);
    let c_calculated = policy_challenge(ppk, &k_s, &k_vec_b, &k_t);
    if !c_calculated.same(&proof.c) {
        return Err(Error::ProofVerificationFailed(ProofCheck::Challenge));
    }
    Ok(true)
}

/// `init` plus the points in column `col` of all keys.
pub(crate) fn add_column(init: &G2, ipks: &Vec<PublicKey>, col: usize) -> (r: G2)
    requires
        forall|j: int| 0 <= j < ipks.len() ==> col < (#[trigger] rows(ipks@)[j]).len(),
    ensures
        r@ == column_total(init@, rows(ipks@), col as int, ipks@.len()),
{
    let mut acc = *init;
    let mut j: usize = 0;
    while j < ipks.len()
        invariant
            j <= ipks.len(),
            forall|k: int| 0 <= k < ipks.len() ==> col < (#[trigger] rows(ipks@)[k]).len(),
            acc@ == column_total(init@, rows(ipks@), col as int, j as nat),
        decreases ipks.len() - j,
    {
        assert(rows(ipks@)[j as int] == g2_views(ipks[j as int].pk_y@));
        assert(col < rows(ipks@)[j as int].len());
        acc = g2_add(&acc, &ipks[j].pk_y[col]);
        j += 1;
    }
    acc
}

/// `init` plus the points in column `col` of the rows of `t` that belong to
/// the other issuers.
pub(crate) fn add_column_except(init: &G2, ppk: &PolicyPublicKey, pk: &PublicKey, col: usize) -> (r: G2)
    requires
        policy_shape_error(*ppk) is None,
        col < ppk.vec_b.len(),
    ensures
        r@ == column_except(
            init@,
            table(ppk.t@),
            rows(ppk.ipks@),
            g2_views(pk.pk_y@),
            col as int,
            ppk.ipks@.len(),
        ),
{
    let mut acc = *init;
    let mut j: usize = 0;
    while j < ppk.ipks.len()
        invariant
            j <= ppk.ipks.len(),
            policy_shape_error(*ppk) is None,
            col < ppk.vec_b.len(),
            acc@ == column_except(
                init@,
                table(ppk.t@),
                rows(ppk.ipks@),
                g2_views(pk.pk_y@),
                col as int,
                j as nat,
            ),
        decreases ppk.ipks.len() - j,
    {
        assert(rows(ppk.ipks@)[j as int] == g2_views(ppk.ipks[j as int].pk_y@));
        assert(table(ppk.t@)[j as int].len() == ppk.vec_b@.len());
        assert(table(ppk.t@)[j as int] == g2_views(ppk.t[j as int]@));
        if !same_points(&ppk.ipks[j].pk_y, &pk.pk_y) {
            acc = g2_add(&acc, &ppk.t[j][col]);
        }
        j += 1;
    }
    acc
}

/// The holder's policy point.
pub(crate) fn fold_others(pp: &PublicParameters, ppk: &PolicyPublicKey, pk: &PublicKey, m: &Vec<Scalar>, r_2: &Scalar) -> (r:
    G2)
    requires
        policy_shape_error(*ppk) is None,
        m.len() <= ppk.vec_b.len(),
    ensures
        r@ == others_fold(
            g2_mul(ppk.s@, r_2@),
            zero_point(*pp),
            table(ppk.t@),
            rows(ppk.ipks@),
            g2_views(pk.pk_y@),
            values(m@),
            m@.len(),
        ),
{
    let zero = g2_scale(&pp.g2, &Scalar::from_u64(0));
    let mut acc = g2_scale(&ppk.s, r_2);
    let mut i: usize = 0;
    while i < m.len()
        invariant
            i <= m.len() <= ppk.vec_b.len(),
            policy_shape_error(*ppk) is None,
            zero@ == zero_point(*pp),
            acc@ == others_fold(
                g2_mul(ppk.s@, r_2@),
                zero_point(*pp),
                table(ppk.t@),
                rows(ppk.ipks@),
                g2_views(pk.pk_y@),
                values(m@),
                i as nat,
            ),
        decreases m.len() - i,
    {
        let column = add_column_except(&zero, ppk, pk, i);
        assert(rows(ppk.ipks@).len() == ppk.ipks@.len());
        acc = g2_add(&acc, &g2_scale(&column, &m[i]));
        i += 1;
    }
    acc
}

/// `init` plus, for each position `k` of `at`, the shift at index `at[k]`
/// plus all keys' points at that index, times the scalar at `k`.
pub(crate) fn fold_keyed(init: &G2, shifts: &Vec<G2>, ipks: &Vec<PublicKey>, at: &Vec<usize>, scalars: &Vec<Scalar>) -> (r:
    G2)
    requires
        at.len() == scalars.len(),
        rectangular(rows(ipks@), shifts@.len()),
        forall|k: int| 0 <= k < at.len() ==> at[k] < shifts.len(),
    ensures
        r@ == keyed_fold(init@, g2_views(shifts@), rows(ipks@), at@, values(scalars@), at@.len()),
{
    let mut acc = *init;
    let mut i: usize = 0;
    while i < at.len()
        invariant
            i <= at.len() == scalars.len(),
            rectangular(rows(ipks@), shifts@.len()),
            forall|k: int| 0 <= k < at.len() ==> at[k] < shifts.len(),
            acc@ == keyed_fold(init@, g2_views(shifts@), rows(ipks@), at@, values(scalars@), i as nat),
        decreases at.len() - i,
    {
        let idx = at[i];
        let column = add_column(&shifts[idx], ipks, idx);
        assert(rows(ipks@).len() == ipks@.len());
        acc = g2_add(&acc, &g2_scale(&column, &scalars[i]));
        i += 1;
    }
    acc
}

/// The challenge of a presentation.
pub fn challenge(ppk: &PolicyPublicKey, pt: &PresentationToken, k: &Gt) -> (r: Scalar)
    ensures
        r@ == challenge_value(*ppk, *pt, k@),
{
    let mut buf: Vec<u8> = Vec::new();
    absorb_gt(&mut buf, k);
    absorb_policy(&mut buf, ppk);
    absorb_g1(&mut buf, &pt.sigma1);
    absorb_g1(&mut buf, &pt.sigma2);
    absorb_g2(&mut buf, &pt.sigma_tilde);
    absorb_index_list(&mut buf, &pt.reveal_index);
    absorb_scalar_list(&mut buf, &pt.open_messages);
    assert(encodings(pt.open_messages@).len() == pt.open_messages@.len());
    assert(buf@ =~= k@ + policy_bytes(*ppk) + pt.sigma1@ + pt.sigma2@ + pt.sigma_tilde@ + index_list_bytes(
        pt.reveal_index@,
        pt.reveal_index@.len(),
    ) + concat(encodings(pt.open_messages@), pt.open_messages@.len()));
    hash_to_fr(buf.as_slice(), PROOF_DST.as_bytes())
}

/// The presentation that the given random scalars give, with the disclosed
/// indices sorted. The indices may come in any order; none may come twice.
pub fn create_proof_with(
    pp: &PublicParameters,
    pk: &PublicKey,
    cred: &Signature,
    ppk: &PolicyPublicKey,
    message_list: &Vec<Scalar>,
    reveal_index: &Vec<usize>,
    blinding: &Blinding,
) -> (r: Result<PresentationToken, Error>)
    ensures
        match r {
            Ok(pt) => prove_error(*pk, *ppk, message_list@.len(), reveal_index@, *blinding) is None && proves(
                *pp,
                *pk,
                *cred,
                *ppk,
                message_list@,
                reveal_index@,
                *blinding,
                pt,
            ),
            Err(e) => prove_error(*pk, *ppk, message_list@.len(), reveal_index@, *blinding) == Some(e),
        },
        r matches Ok(pt) ==> pt.reveal_index@.len() == reveal_index@.len() && pt.proof.z_i@.len() + reveal_index@.len()
            == message_list@.len(),
{
    let message_len = message_list.len();
    if !check_policy_shape(ppk) {
        return Err(Error::InvalidParameter);
    }
    if !check_inputs(message_len, ppk.vec_b.len(), reveal_index) {
        return Err(Error::InvalidParameter);
    }
    let sorted = sorted_indices(reveal_index, message_len);
    let close_index = hidden_indices(&sorted, message_len);
    proof {
        lemma_disclosed(reveal_index@, message_len as nat);
        lemma_disclosed_count(reveal_index@, message_len as nat);
    }
    if blinding.k_i.len() != close_index.len() {
        return Err(Error::InvalidParameter);
    }
    if blinding.r_1.is_zero() {
        return Err(Error::RandomnessFailure);
    }
    let open_messages = select_scalars(message_list, &sorted);
    let close_messages = select_scalars(message_list, &close_index);
    let new_sigma1 = g1_scale(&cred.sigma1, &blinding.r_1);
    let minus_r_2 = fr_neg(&blinding.r_2);
    let new_sigma2 = g1_add(&g1_scale(&cred.sigma2, &blinding.r_1), &g1_scale(&new_sigma1, &minus_r_2));
    let sigma_tilde = fold_others(pp, ppk, pk, message_list, &blinding.r_2);
    let zero = g2_scale(&pp.g2, &Scalar::from_u64(0));
    let k_input = fold_keyed(&zero, &ppk.vec_b, &ppk.ipks, &close_index, &blinding.k_i);
    let k = pair(&new_sigma1, &k_input);
    let mut pt = PresentationToken {
        sigma1: new_sigma1,
        sigma2: new_sigma2,
        sigma_tilde,
        k,
        proof: Proof { z_i: Vec::new(), c: Scalar::from_u64(0) },
        len: message_len,
        open_messages,
        reveal_index: sorted,
    };
    let c = challenge(ppk, &pt, &k);
    let z_i = respond_plus(&blinding.k_i, &c, &close_messages);
    proof {
        let before = pt;
        assert(challenge_value(*ppk, before, k@) == challenge_value(
            *ppk,
            PresentationToken { proof: Proof { z_i, c }, ..before },
            k@,
        ));
    }
    pt.proof = Proof { z_i, c };
    proof {
        assert(values(pt.proof.z_i@).len() == pt.proof.z_i@.len());
        assert(values(blinding.k_i@).len() == blinding.k_i@.len());
    }
    Ok(pt)
}

/// A presentation of the credential that discloses the attributes at the
/// given indices, in any order, under fresh random scalars. Where the policy
/// does not list the holder's issuer key, the presentation will not verify.
pub fn create_proof(
    pp: &PublicParameters,
    pk: &PublicKey,
    cred: &Signature,
    ppk: &PolicyPublicKey,
    message_list: &Vec<Scalar>,
    reveal_index: &Vec<usize>,
) -> (r: Result<PresentationToken, Error>)
    ensures
        match r {
            Ok(pt) => exists|b: Blinding|
                prove_error(*pk, *ppk, message_list@.len(), reveal_index@, b) is None && #[trigger] proves(
                    *pp,
                    *pk,
                    *cred,
                    *ppk,
                    message_list@,
                    reveal_index@,
                    b,
                    pt,
                ),
            Err(e) => if request_error(*pk, *ppk, message_list@.len(), reveal_index@) is Some {
                e == Error::InvalidParameter
            } else {
                e == Error::RandomnessFailure
            },
        },
        r matches Ok(pt) ==> pt.reveal_index@.len() == reveal_index@.len() && pt.proof.z_i@.len() + reveal_index@.len()
            == message_list@.len(),
{
    let message_len = message_list.len();
    if !check_policy_shape(ppk) {
        return Err(Error::InvalidParameter);
    }
    if !check_inputs(message_len, ppk.vec_b.len(), reveal_index) {
        return Err(Error::InvalidParameter);
    }
    let close_index = hidden_indices(reveal_index, message_len);
    let r_1 = match Scalar::random_nonzero() {
        Ok(s) => s,
        Err(e) => {
            return Err(e);
        },
    };
    let blinding = Blinding { r_1, r_2: Scalar::random(), k_i: random_scalars(close_index.len()) };
    create_proof_with(pp, pk, cred, ppk, message_list, reveal_index, &blinding)
}

/// Checks a presentation with the policy's secrets.
pub fn verify_proof(pp: &PublicParameters, pt: &PresentationToken, pkp: &PolicyKeyPair) -> (r: Result<bool, Error>)
    ensures
        r == proof_outcome(*pp, *pt, *pkp),
{
    let ppk = &pkp.ppk;
    let psk = &pkp.psk;
    let message_len = pt.len;
    if !check_policy_shape(ppk) || psk.b.len() != ppk.vec_b.len() {
        return Err(Error::InvalidParameter);
    }
    if !check_disclosure(message_len, ppk.vec_b.len(), &pt.reveal_index) {
        return Err(Error::InvalidParameter);
    }
    if pt.open_messages.len() != pt.reveal_index.len() {
        return Err(Error::InvalidParameter);
    }
    let close_index = hidden_indices(&pt.reveal_index, message_len);
    if pt.proof.z_i.len() != close_index.len() {
        return Err(Error::InvalidParameter);
    }
    if pt.sigma1.is_identity() {
        return Err(Error::InvalidParameter);
    }
    let a_inv = match psk.a.invert() {
        Some(i) => i,
        None => {
            return Err(Error::InvalidKey);
        },
    };
    let others = others_scalar(ppk.ipks.len());
    let shifts = make_shift_points(&pp.g2, &psk.b, &others);
    let minus_c = fr_neg(&pt.proof.c);
    let minus_one = fr_neg(&Scalar::from_u64(1));
    let start = g2_add(&g2_scale(&pp.x2, &minus_one), &g2_scale(&pt.sigma_tilde, &a_inv));
    let minus_m = negate_all(&pt.open_messages);
    let t_sum = fold_keyed(&start, &shifts, &ppk.ipks, &pt.reveal_index, &minus_m);
    let t_input = g2_scale(&t_sum, &minus_c);
    let t = gt_add(&pair(&pt.sigma2, &g2_scale(&pp.g2, &minus_c)), &pair(&pt.sigma1, &t_input));
    let zero = g2_scale(&pp.g2, &Scalar::from_u64(0));
    let k_input = fold_keyed(&zero, &shifts, &ppk.ipks, &close_index, &pt.proof.z_i);
    let k = gt_add(&t, &pair(&pt.sigma1, &k_input));
    let c_calculated = challenge(ppk, pt, &pt.k);
    if !c_calculated.same(&pt.proof.c) {
        return Err(Error::ProofVerificationFailed(ProofCheck::Challenge));
    }
    if !k.same(&pt.k) {
        return Err(Error::ProofVerificationFailed(ProofCheck::PolicyBinding));
    }
    Ok(true)
}

/// Whether every point of every key is a point of the second group.
pub open spec fn keys_valid(keys: Seq<Seq<Seq<u8>>>) -> bool {
    forall|i: int, j: int| 0 <= i < keys.len() && 0 <= j < keys[i].len() ==> is_g2(#[trigger] keys[i][j])
}

/// Whether the random scalars of a policy are below the modulus.
pub open spec fn policy_nonces_valid(nonces: PolicyNonces) -> bool {
    &&& nonces.a@ < modulus()
    &&& forall|j: int| 0 <= j < nonces.b@.len() ==> (#[trigger] values(nonces.b@)[j]) < modulus()
    &&& forall|j: int| 0 <= j < nonces.r@.len() ==> (#[trigger] values(nonces.r@)[j]) < modulus()
}

/// Under the laws of a bilinear group, the policy that an honest verifier
/// makes passes the audit, where the points of the listed keys are points
/// of the second group.
pub proof fn lemma_honest_policy_audits(
    pp: PublicParameters,
    ipks: Seq<PublicKey>,
    nonces: PolicyNonces,
    pair: PolicyKeyPair,
    proof: PolicyProof,
)
    requires
        group_laws(),
        is_g2(pp.g2@),
        keys_valid(rows(ipks)),
        policy_nonces_valid(nonces),
        proof.c@ < modulus(),
        policy_error(ipks, nonces) is None,
        policy_of(pp, ipks, nonces, pair, proof),
    ensures
        audit_outcome(pp, pair.ppk, proof) == Ok::<bool, Error>(true),
{
    let g2 = pp.g2@;
    let ppk = pair.ppk;
    let keys = rows(ipks);
    let others = (ipks.len() - 1) as nat;
    let a = nonces.a@;
    let b = values(nonces.b@);
    let r = values(nonces.r@);
    let z = values(proof.vec_z@);
    let c = proof.c@;
    let t = table(ppk.t@);
    let width = b.len();
    assert(b.len() == nonces.b@.len());
    assert(r.len() == nonces.r@.len());
    assert(z.len() == proof.vec_z@.len());
    assert(keys.len() == ipks.len());
    assert(t.len() == ppk.t@.len());
    assert(g2_views(ppk.vec_b@).len() == ppk.vec_b@.len());
    assert(rows(ppk.ipks@).len() == ppk.ipks@.len());
    assert(width == ipks[0].pk_y@.len()) by {
        assert(g2_views(ipks[0].pk_y@).len() == ipks[0].pk_y@.len());
    }
    // the shape of the policy
    assert(rectangular(t, width)) by {
        assert forall|i: int| 0 <= i < t.len() implies (#[trigger] t[i]).len() == width by {
            assert(keys[i].len() == width);
        }
    }
    // s * (r0 + c * a^-1) + g2 * -c = s * r0
    let s = g2_mul(g2, a);
    law_g2_mul(g2, a);
    law_g2_mul_add(s, r[0], fr_prod(c, fr_inv(a)));
    law_g2_mul_mul(g2, a, fr_prod(c, fr_inv(a)));
    assert(fr_prod(a, fr_prod(c, fr_inv(a))) == c) by {
        lemma_fr_units(a, a);
        lemma_fr_inverse_absorbed(c, a);
        lemma_fr_basics(a, fr_prod(c, fr_inv(a)));
    }
    law_g2_mul(s, r[0]);
    law_g2_mul(g2, c);
    law_g2_mul(g2, fr_opp(c));
    law_g2_assoc(g2_mul(s, r[0]), g2_mul(g2, c), g2_mul(g2, fr_opp(c)));
    lemma_g2_cancel(g2, c);
    lemma_g2_zero(g2_mul(s, r[0]), g2);
    // vec_b[j] * c + g2 * (z[j + 1] * others) = g2 * (r[j + 1] * others)
    assert(shift_recomputed(g2, g2_views(ppk.vec_b@), z, c, others) =~= shift_commitments(g2, r, others, width))
        by {
        assert forall|j: int| 0 <= j < width implies shift_recomputed(g2, g2_views(ppk.vec_b@), z, c, others)[j]
            == shift_commitments(g2, r, others, width)[j] by {
            law_g2_mul_mul(g2, fr_prod(b[j], others), c);
            law_g2_mul_add(g2, fr_prod(fr_prod(b[j], others), c), fr_prod(z[j + 1], others));
            lemma_fr_shift_response(b[j], others, c, r[j + 1]);
        }
    }
    // t[i][j] * z[0] + g2 * z[j + 1] - ipk_i[j] * c = t[i][j] * r[0] + g2 * r[j + 1]
    assert(table_recomputed(g2, rows(ppk.ipks@), t, z, c) =~= table_commitments(g2, t, r)) by {
        assert forall|i: int| 0 <= i < t.len() implies #[trigger] table_recomputed(
            g2,
            rows(ppk.ipks@),
            t,
            z,
            c,
        )[i] =~= table_commitments(g2, t, r)[i] by {
            assert(keys[i].len() == width);
            assert forall|j: int| 0 <= j < t[i].len() implies table_recomputed(
                g2,
                rows(ppk.ipks@),
                t,
                z,
                c,
            )[i][j] == table_commitments(g2, t, r)[i][j] by {
                crate::katz::lemma_policy_commitment_recomputed(g2, keys[i][j], a, b[j], r[0], r[j + 1], c);
            }
        }
    }
}

/// Under the laws of a bilinear group, a signature made with a secret key
/// is accepted under the public key of that secret key, where the two
/// fixed points of the parameters hide one scalar.
pub proof fn lemma_signature_verifies(
    pp: PublicParameters,
    shared: nat,
    pair: KeyPair,
    m: Seq<nat>,
    r: nat,
    sig: Signature,
)
    requires
        group_laws(),
        is_g1(pp.g1@),
        is_g2(pp.g2@),
        shared < modulus(),
        pp.x1@ == g1_mul(pp.g1@, shared),
        pp.x2@ == g2_mul(pp.g2@, shared),
        g2_views(pair.pk.pk_y@) == public_points(pp.g2@, values(pair.sk.y@)),
        sign_error(pair.sk, m.len(), r) is None,
        signs(pp, pair.sk, m, r, sig),
    ensures
        verify_outcome(pp, pair.pk, sig, m) == Ok::<bool, Error>(true),
{
    let g1 = pp.g1@;
    let g2 = pp.g2@;
    let y = values(pair.sk.y@);
    let d = dot(y, m, m.len());
    let t = fr_sum(shared, d);
    assert(g2_views(pair.pk.pk_y@).len() == pair.pk.pk_y@.len());
    assert(y.len() == pair.sk.y@.len());
    lemma_public_sum(g2, shared, y, m, m.len());
    // sigma2 = g1 * (shared * r) + g1 * (r * d) = g1 * (r * t)
    law_g1_mul_mul(g1, shared, r);
    law_g1_mul_add(g1, fr_prod(shared, r), fr_prod(r, d));
    lemma_fr_basics(shared, r);
    lemma_fr_distributes(r, shared, d);
    law_g2_mul(g2, t);
    law_pairing_scalar(g1, g2, fr_prod(r, t));
    law_pairing_scalar(g1, g2_mul(g2, t), r);
    law_g2_mul_mul(g2, t, r);
    lemma_fr_basics(r, t);
}

/// How many of the first `n` keys equal the given one.
pub open spec fn row_occurrences(keys: Seq<Seq<Seq<u8>>>, key: Seq<Seq<u8>>, n: nat) -> nat
    decreases n,
{
    if n == 0 {
        0
    } else if keys[n - 1] == key {
        row_occurrences(keys, key, (n - 1) as nat) + 1
    } else {
        row_occurrences(keys, key, (n - 1) as nat)
    }
}

/// A key is counted at most `n` times among the first `n` keys, and a key
/// that is counted is one of them.
pub proof fn lemma_row_occurrences(keys: Seq<Seq<Seq<u8>>>, key: Seq<Seq<u8>>, n: nat)
    ensures
        row_occurrences(keys, key, n) <= n,
        row_occurrences(keys, key, n) > 0 ==> exists|l: int| 0 <= l < n && keys[l] == key,
    decreases n,
{
    if n > 0 {
        lemma_row_occurrences(keys, key, (n - 1) as nat);
        if keys[n - 1] == key {
        } else if row_occurrences(keys, key, n) > 0 {
            let l = choose|l: int| 0 <= l < n - 1 && keys[l] == key;
            assert(0 <= l < n && keys[l] == key);
        }
    }
}

/// Under the laws of a bilinear group, a column total is a point of the
/// second group.
pub proof fn lemma_column_total_valid(init: Seq<u8>, keys: Seq<Seq<Seq<u8>>>, col: int, n: nat)
    requires
        group_laws(),
        is_g2(init),
        keys_valid(keys),
        n <= keys.len(),
        0 <= col,
        forall|l: int| 0 <= l < n ==> col < (#[trigger] keys[l]).len(),
    ensures
        is_g2(column_total(init, keys, col, n)),
    decreases n,
{
    if n > 0 {
        lemma_column_total_valid(init, keys, col, (n - 1) as nat);
        assert(col < keys[n - 1].len());
        law_g2_sum(column_total(init, keys, col, (n - 1) as nat), keys[n - 1][col]);
    }
}

/// Under the laws of a bilinear group, a point added to the start of a
/// column total is added to the total.
pub proof fn lemma_column_total_shift(init: Seq<u8>, extra: Seq<u8>, keys: Seq<Seq<Seq<u8>>>, col: int, n: nat)
    requires
        group_laws(),
        is_g2(init),
        is_g2(extra),
        keys_valid(keys),
        n <= keys.len(),
        0 <= col,
        forall|l: int| 0 <= l < n ==> col < (#[trigger] keys[l]).len(),
    ensures
        column_total(g2_sum(init, extra), keys, col, n) == g2_sum(column_total(init, keys, col, n), extra),
    decreases n,
{
    if n > 0 {
        lemma_column_total_shift(init, extra, keys, col, (n - 1) as nat);
        lemma_column_total_valid(init, keys, col, (n - 1) as nat);
        assert(col < keys[n - 1].len());
        lemma_g2_swap_last(column_total(init, keys, col, (n - 1) as nat), extra, keys[n - 1][col]);
    }
}

/// Under the laws of a bilinear group, what a holder folds from one column
/// of the table is a point of the second group.
pub proof fn lemma_column_except_valid(
    init: Seq<u8>,
    t: Seq<Seq<Seq<u8>>>,
    keys: Seq<Seq<Seq<u8>>>,
    key: Seq<Seq<u8>>,
    col: int,
    n: nat,
)
    requires
        group_laws(),
        is_g2(init),
        keys_valid(t),
        n <= t.len(),
        0 <= col,
        forall|l: int| 0 <= l < n ==> col < (#[trigger] t[l]).len(),
    ensures
        is_g2(column_except(init, t, keys, key, col, n)),
    decreases n,
{
    if n > 0 {
        lemma_column_except_valid(init, t, keys, key, col, (n - 1) as nat);
        assert(col < t[n - 1].len());
        law_g2_sum(column_except(init, t, keys, key, col, (n - 1) as nat), t[n - 1][col]);
    }
}

/// Under the laws of a bilinear group, the table of a policy holds points
/// of the second group where the keys do.
pub proof fn lemma_policy_table_valid(g2: Seq<u8>, keys: Seq<Seq<Seq<u8>>>, a: nat, b: Seq<nat>)
    requires
        group_laws(),
        is_g2(g2),
        keys_valid(keys),
    ensures
        keys_valid(policy_table(g2, keys, a, b)),
{
    let t = policy_table(g2, keys, a, b);
    assert forall|i: int, j: int| 0 <= i < t.len() && 0 <= j < t[i].len() implies is_g2(#[trigger] t[i][j]) by {
        assert(is_g2(keys[i][j]));
        law_g2_mul(g2, b[j]);
        law_g2_sum(keys[i][j], g2_mul(g2, b[j]));
        law_g2_mul(g2_sum(keys[i][j], g2_mul(g2, b[j])), a);
    }
}

/// Under the laws of a bilinear group, what a holder folds from one column
/// of the table, freed of the policy's secret `a`, and the holder's own
/// issuer's point in that column are together the column's total over all
/// keys and the shifts of the other keys. The holder's issuer is listed at
/// most once.
pub proof fn lemma_column_unfolds(
    g2: Seq<u8>,
    keys: Seq<Seq<Seq<u8>>>,
    key: Seq<Seq<u8>>,
    a: nat,
    b: Seq<nat>,
    col: int,
    n: nat,
)
    requires
        group_laws(),
        is_g2(g2),
        keys_valid(keys),
        rectangular(keys, b.len()),
        key.len() == b.len(),
        0 <= col < b.len(),
        is_g2(key[col]),
        0 < a < modulus(),
        b[col] < modulus(),
        n <= keys.len(),
        row_occurrences(keys, key, n) <= 1,
    ensures
        ({
            let zero = g2_mul(g2, 0);
            let folded = column_except(zero, policy_table(g2, keys, a, b), keys, key, col, n);
            let own = if row_occurrences(keys, key, n) == 0 {
                zero
            } else {
                key[col]
            };
            let others = (n - row_occurrences(keys, key, n)) as nat;
            g2_sum(g2_mul(folded, fr_inv(a)), own) == column_total(
                g2_mul(g2, fr_prod(b[col], others)),
                keys,
                col,
                n,
            )
        }),
    decreases n,
{
    let zero = g2_mul(g2, 0);
    let t = policy_table(g2, keys, a, b);
    law_g2_mul(g2, 0);
    lemma_policy_table_valid(g2, keys, a, b);
    lemma_row_occurrences(keys, key, n);
    if n == 0 {
        law_g2_mul_mul(g2, 0, fr_inv(a));
        assert(fr_prod(0, fr_inv(a)) == 0) by {
            reveal(fr_prod);
            assert(0 * fr_inv(a) == 0);
        }
        assert(fr_prod(b[col], 0) == 0) by {
            reveal(fr_prod);
            assert(b[col] * 0 == 0);
        }
        lemma_g2_zero(zero, g2);
    } else {
        let before = (n - 1) as nat;
        lemma_row_occurrences(keys, key, before);
        lemma_column_unfolds(g2, keys, key, a, b, col, before);
        let count = (before - row_occurrences(keys, key, before)) as nat;
        let folded = column_except(zero, t, keys, key, col, before);
        let freed = g2_mul(folded, fr_inv(a));
        let own = if row_occurrences(keys, key, before) == 0 {
            zero
        } else {
            key[col]
        };
        let shift = g2_mul(g2, fr_prod(b[col], count));
        assert forall|l: int| 0 <= l < n implies col < (#[trigger] keys[l]).len() by {}
        assert forall|l: int| 0 <= l < n implies col < (#[trigger] t[l]).len() by {
            assert(keys[l].len() == b.len());
        }
        lemma_column_except_valid(zero, t, keys, key, col, before);
        law_g2_mul(folded, fr_inv(a));
        law_g2_mul(g2, fr_prod(b[col], count));
        let this = keys[n - 1][col];
        assert(keys[n - 1].len() == b.len());
        assert(is_g2(this));
        if keys[n - 1] == key {
            // the holder's own issuer: nothing folded, its point counted
            lemma_g2_zero(freed, g2);
        } else {
            // one more row folded: (this + g2 * b) * a, freed of a
            let step = g2_mul(g2, b[col]);
            law_g2_mul(g2, b[col]);
            law_g2_sum(this, step);
            assert(t[n - 1][col] == g2_mul(g2_sum(this, step), a));
            law_g2_mul(g2_sum(this, step), a);
            law_g2_add_mul(folded, t[n - 1][col], fr_inv(a));
            lemma_g2_inverse_scaling(g2_sum(this, step), a);
            // the shift grows by g2 * b
            lemma_fr_count_step(count, b[col]);
            lemma_fr_basics(count, b[col]);
            lemma_fr_basics(count + 1, b[col]);
            law_g2_mul_add(g2, fr_prod(b[col], count), b[col]);
            lemma_column_total_shift(shift, step, keys, col, before);
            // (freed + (this + step)) + own = ((freed + own) + step) + this
            law_g2_sum(freed, own);
            lemma_g2_swap_last(freed, g2_sum(this, step), own);
            law_g2_assoc(g2_sum(freed, own), this, step);
            lemma_g2_swap_last(g2_sum(freed, own), step, this);
        }
    }
}

/// What a holder folds from the table is the attributes' weighted sum of
/// the columns' folds.
pub proof fn lemma_others_fold_is_sum(
    init: Seq<u8>,
    zero: Seq<u8>,
    t: Seq<Seq<Seq<u8>>>,
    keys: Seq<Seq<Seq<u8>>>,
    key: Seq<Seq<u8>>,
    m: Seq<nat>,
    folds: Seq<Seq<u8>>,
    n: nat,
)
    requires
        n <= folds.len(),
        forall|i: int| 0 <= i < n ==> #[trigger] folds[i] == column_except(zero, t, keys, key, i, keys.len()),
    ensures
        others_fold(init, zero, t, keys, key, m, n) == g2_lincomb(init, folds, m, n),
    decreases n,
{
    if n > 0 {
        lemma_others_fold_is_sum(init, zero, t, keys, key, m, folds, (n - 1) as nat);
        assert(folds[n - 1] == column_except(zero, t, keys, key, n - 1, keys.len()));
    }
}

/// What is folded from the shifts and the keys at chosen positions is the
/// weighted sum of the columns' totals at those positions.
pub proof fn lemma_keyed_fold_is_sum(
    init: Seq<u8>,
    shifts: Seq<Seq<u8>>,
    keys: Seq<Seq<Seq<u8>>>,
    at: Seq<usize>,
    scalars: Seq<nat>,
    totals: Seq<Seq<u8>>,
    n: nat,
)
    requires
        n <= at.len(),
        forall|k: int| 0 <= k < at.len() ==> at[k] < totals.len(),
        forall|i: int| 0 <= i < totals.len() ==> #[trigger] totals[i] == column_total(shifts[i], keys, i, keys.len()),
    ensures
        keyed_fold(init, shifts, keys, at, scalars, n) == g2_lincomb_at(init, totals, at, scalars, n),
    decreases n,
{
    if n > 0 {
        lemma_keyed_fold_is_sum(init, shifts, keys, at, scalars, totals, (n - 1) as nat);
        let i = at[n - 1] as int;
        assert(totals[i] == column_total(shifts[i], keys, i, keys.len()));
    }
}

/// Under the laws of a bilinear group, what a verifier folds from an honest
/// presentation in the second group is what the holder committed to. Each
/// column's total is the holder's freed fold of that column and the point
/// of the holder's own issuer.
pub proof fn lemma_fold_recomputed(
    g2: Seq<u8>,
    shared: nat,
    y: Seq<nat>,
    freed: Seq<Seq<u8>>,
    totals: Seq<Seq<u8>>,
    m: Seq<nat>,
    reveal: Seq<usize>,
    r2: nat,
    k_i: Seq<nat>,
    c: nat,
)
    requires
        group_laws(),
        is_g2(g2),
        all_g2(freed),
        all_g2(totals),
        m.len() <= y.len(),
        m.len() <= freed.len(),
        m.len() <= totals.len(),
        m.len() <= usize::MAX,
        forall|i: int| 0 <= i < m.len() ==> #[trigger] totals[i] == g2_sum(freed[i], g2_mul(g2, y[i])),
        increasing_below(reveal, m.len()),
        k_i.len() == hidden(reveal, m.len()).len(),
        c < modulus(),
    ensures
        ({
            let zero = g2_mul(g2, 0);
            let hide = hidden(reveal, m.len());
            let minus_c = fr_opp(c);
            let w = fr_sum(fr_sum(shared, dot(y, m, m.len())), fr_opp(r2));
            let start = g2_sum(
                g2_mul(g2_mul(g2, shared), fr_opp(1)),
                g2_sum(g2_mul(g2, r2), g2_lincomb(zero, freed, m, m.len())),
            );
            g2_sum(
                g2_sum(
                    g2_mul(g2, fr_prod(minus_c, w)),
                    g2_mul(
                        g2_lincomb_at(start, totals, reveal, negated(selected(m, reveal)), reveal.len()),
                        minus_c,
                    ),
                ),
                g2_lincomb_at(zero, totals, hide, masked_plus(k_i, c, selected(m, hide)), hide.len()),
            ) == g2_lincomb_at(zero, totals, hide, k_i, hide.len())
        }),
{
    let n = m.len();
    let zero = g2_mul(g2, 0);
    let hide = hidden(reveal, n);
    let minus_c = fr_opp(c);
    let d = dot(y, m, n);
    let w = fr_sum(fr_sum(shared, d), fr_opp(r2));
    let own = public_points(g2, y);
    let minus_shown = negated(selected(m, reveal));
    let responses = masked_plus(k_i, c, selected(m, hide));
    let challenged = Seq::new(hide.len(), |j: int| fr_prod(c, m[hide[j] as int]));
    lemma_hidden_members(reveal, n);
    assert forall|k: int| 0 <= k < hide.len() implies hide[k] < totals.len() by {
        assert(hide.contains(hide[k]));
    }
    assert forall|k: int| 0 <= k < reveal.len() implies reveal[k] < totals.len() by {}
    law_g2_mul(g2, 0);
    assert(all_g2(own)) by {
        assert forall|i: int| 0 <= i < own.len() implies is_g2(#[trigger] own[i]) by {
            law_g2_mul(g2, y[i]);
        }
    }
    // the points at hand
    let g_shared = g2_mul(g2, shared);
    let g_dot = g2_mul(g2, d);
    let g_nonce = g2_mul(g2, r2);
    let g_nonce_back = g2_mul(g2, fr_opp(r2));
    let g_shared_back = g2_mul(g_shared, fr_opp(1));
    let freed_sum = g2_lincomb(zero, freed, m, n);
    let total_sum = g2_lincomb(zero, totals, m, n);
    let shown = g2_lincomb_at(zero, totals, reveal, selected(m, reveal), reveal.len());
    let shown_back = g2_lincomb_at(zero, totals, reveal, minus_shown, reveal.len());
    let kept = g2_lincomb_at(zero, totals, hide, selected(m, hide), hide.len());
    let kept_back = g2_lincomb_at(zero, totals, hide, scaled(selected(m, hide), minus_c), hide.len());
    let committed = g2_lincomb_at(zero, totals, hide, k_i, hide.len());
    let kept_challenged = g2_lincomb_at(zero, totals, hide, challenged, hide.len());
    let start = g2_sum(g_shared_back, g2_sum(g_nonce, freed_sum));
    law_g2_mul(g2, shared);
    law_g2_mul(g2, d);
    law_g2_mul(g2, r2);
    law_g2_mul(g2, fr_opp(r2));
    law_g2_mul(g_shared, fr_opp(1));
    lemma_g2_lincomb_valid(zero, freed, m, n);
    lemma_g2_lincomb_valid(zero, totals, m, n);
    lemma_g2_lincomb_at_valid(zero, totals, reveal, selected(m, reveal), reveal.len());
    lemma_g2_lincomb_at_valid(zero, totals, reveal, minus_shown, reveal.len());
    lemma_g2_lincomb_at_valid(zero, totals, hide, selected(m, hide), hide.len());
    lemma_g2_lincomb_at_valid(zero, totals, hide, scaled(selected(m, hide), minus_c), hide.len());
    lemma_g2_lincomb_at_valid(zero, totals, hide, k_i, hide.len());
    lemma_g2_lincomb_at_valid(zero, totals, hide, challenged, hide.len());
    law_g2_sum(g_nonce, freed_sum);
    law_g2_sum(g_shared_back, g2_sum(g_nonce, freed_sum));
    // g2 * w = (g2 * shared + g2 * d) + g2 * -r2
    law_g2_mul_add(g2, shared, d);
    law_g2_mul_add(g2, fr_sum(shared, d), fr_opp(r2));
    // g2 * shared and its opposite cancel, and so do g2 * r2 and its opposite
    assert(g2_sum(g_shared, g_shared_back) == zero) by {
        law_g2_mul_mul(g2, shared, fr_opp(1));
        law_g2_mul_mul(g2, shared, 1);
        law_g2_unit(g_shared, g2);
        lemma_fr_prod_opp(shared, 1);
        lemma_g2_cancel(g2, fr_prod(shared, 1));
    }
    assert(g2_sum(g_nonce_back, g_nonce) == zero) by {
        lemma_g2_cancel(g2, r2);
        law_g2_sum(g_nonce, g_nonce_back);
    }
    lemma_g2_two_pairs_cancel(g_shared, g_dot, g_nonce_back, g_shared_back, g_nonce, freed_sum, g2);
    assert(g2_sum(g2_mul(g2, w), start) == g2_sum(g_dot, freed_sum));
    // g2 * d is the weighted sum of the own issuer's points
    assert(g_dot == g2_lincomb(zero, own, m, n)) by {
        lemma_public_sum(g2, 0, y, m, n);
        if n > 0 {
            lemma_fr_basics(dot(y, m, (n - 1) as nat), fr_prod(y[n - 1], m[n - 1]));
        }
        lemma_fr_small(d);
    }
    law_g2_sum(g_dot, freed_sum);
    assert forall|i: int| 0 <= i < n implies #[trigger] totals[i] == g2_sum(freed[i], own[i]) by {}
    lemma_g2_lincomb_points_added(g2, freed, own, totals, m, n);
    assert(g2_sum(g2_mul(g2, w), start) == total_sum);
    // the first two points: ((g2 * w) + (start + shown_back)) * -c
    law_g2_mul(g2, w);
    law_g2_mul_mul(g2, w, minus_c);
    lemma_fr_basics(w, minus_c);
    lemma_g2_lincomb_at_from(start, g2, totals, reveal, minus_shown, reveal.len());
    law_g2_sum(start, shown_back);
    law_g2_add_mul(g2_mul(g2, w), g2_sum(start, shown_back), minus_c);
    law_g2_assoc(g2_mul(g2, w), start, shown_back);
    // total_sum + shown_back = kept
    lemma_g2_partition(g2, totals, m, reveal, n);
    lemma_g2_swap_last(shown, kept, shown_back);
    let nothing_shown = Seq::new(reveal.len(), |j: int| 0nat);
    assert forall|j: int| 0 <= j < reveal.len() implies nothing_shown[j] == fr_sum(
        selected(m, reveal)[j],
        minus_shown[j],
    ) by {
        lemma_fr_opp_cancels(m[reveal[j] as int]);
    }
    lemma_g2_lincomb_at_add(g2, totals, reveal, nothing_shown, selected(m, reveal), minus_shown, reveal.len());
    lemma_g2_lincomb_at_zero(g2, totals, reveal, nothing_shown, reveal.len());
    lemma_g2_zero(kept, g2);
    assert(g2_sum(total_sum, shown_back) == kept);
    lemma_g2_lincomb_at_scale(g2, totals, hide, selected(m, hide), minus_c, hide.len());
    // the responses bring the commitment and the challenged attributes
    assert forall|j: int| 0 <= j < hide.len() implies responses[j] == fr_sum(k_i[j], challenged[j]) by {}
    lemma_g2_lincomb_at_add(g2, totals, hide, responses, k_i, challenged, hide.len());
    // kept_back + (committed + kept_challenged) = committed
    let nothing_hidden = Seq::new(hide.len(), |j: int| 0nat);
    assert forall|j: int| 0 <= j < hide.len() implies nothing_hidden[j] == fr_sum(
        scaled(selected(m, hide), minus_c)[j],
        challenged[j],
    ) by {
        let a = m[hide[j] as int];
        lemma_fr_prod_opp(a, c);
        lemma_fr_basics(a, c);
        lemma_fr_opp_cancels(fr_prod(a, c));
    }
    lemma_g2_lincomb_at_add(
        g2,
        totals,
        hide,
        nothing_hidden,
        scaled(selected(m, hide), minus_c),
        challenged,
        hide.len(),
    );
    lemma_g2_lincomb_at_zero(g2, totals, hide, nothing_hidden, hide.len());
    law_g2_sum(committed, kept_challenged);
    law_g2_assoc(kept_back, kept_challenged, committed);
    lemma_g2_zero(committed, g2);
}

/// Under the laws of a bilinear group, the presentation that an honest
/// holder makes against an honest policy is accepted, where the holder's
/// issuer is listed exactly once, the points of the listed keys are points
/// of the second group, and the two fixed points of the parameters hide one
/// scalar.
pub proof fn lemma_honest_proof_verifies(
    pp: PublicParameters,
    shared: nat,
    issuer: KeyPair,
    ipks: Seq<PublicKey>,
    nonces: PolicyNonces,
    policy: PolicyKeyPair,
    audit: PolicyProof,
    rho: nat,
    cred: Signature,
    m: Seq<Scalar>,
    reveal: Seq<usize>,
    b: Blinding,
    pt: PresentationToken,
)
    requires
        group_laws(),
        is_g1(pp.g1@),
        !g1_is_identity(pp.g1@),
        is_g2(pp.g2@),
        shared < modulus(),
        pp.x1@ == g1_mul(pp.g1@, shared),
        pp.x2@ == g2_mul(pp.g2@, shared),
        g2_views(issuer.pk.pk_y@) == public_points(pp.g2@, values(issuer.sk.y@)),
        keys_valid(rows(ipks)),
        policy_nonces_valid(nonces),
        policy_error(ipks, nonces) is None,
        policy_of(pp, ipks, nonces, policy, audit),
        row_occurrences(rows(ipks), g2_views(issuer.pk.pk_y@), ipks.len()) == 1,
        0 < rho < modulus(),
        signs(pp, issuer.sk, values(m), rho, cred),
        b.r_1@ < modulus(),
        b.r_2@ < modulus(),
        pt.proof.c@ < modulus(),
        prove_error(issuer.pk, policy.ppk, m.len(), reveal, b) is None,
        proves(pp, issuer.pk, cred, policy.ppk, m, reveal, b, pt),
    ensures
        proof_outcome(pp, pt, policy) == Ok::<bool, Error>(true),
{
    let g1 = pp.g1@;
    let g2 = pp.g2@;
    let zero = g2_mul(g2, 0);
    let ppk = policy.ppk;
    let keys = rows(ipks);
    let count = ipks.len();
    let own = g2_views(issuer.pk.pk_y@);
    let y = values(issuer.sk.y@);
    let a = nonces.a@;
    let bv = values(nonces.b@);
    let width = bv.len();
    let n = m.len();
    lemma_disclosed(reveal, n);
    let reveal = disclosed(reveal, n);
    let mv = values(m);
    let hide = hidden(reveal, n);
    let c = pt.proof.c@;
    let minus_c = fr_opp(c);
    let shifts = shift_points(g2, bv, (count - 1) as nat);
    let t = table(ppk.t@);
    let r1 = b.r_1@;
    let r2 = b.r_2@;
    let sigma1 = pt.sigma1@;
    let d = dot(y, mv, n);
    let signed_sum = fr_sum(shared, d);
    let w = fr_sum(signed_sum, fr_opp(r2));
    // the shape of the policy and of the presentation
    assert(keys.len() == count);
    assert(rows(ppk.ipks@).len() == ppk.ipks@.len());
    assert(bv.len() == nonces.b@.len());
    assert(own.len() == issuer.pk.pk_y@.len());
    assert(y.len() == issuer.sk.y@.len());
    assert(mv.len() == n);
    assert(g2_views(ipks[0].pk_y@).len() == ipks[0].pk_y@.len());
    assert(g2_views(ppk.vec_b@).len() == ppk.vec_b@.len());
    assert(values(policy.psk.b@).len() == policy.psk.b@.len());
    assert(values(pt.proof.z_i@).len() == pt.proof.z_i@.len());
    assert(values(b.k_i@).len() == b.k_i@.len());
    assert(rectangular(keys, width));
    lemma_row_occurrences(keys, own, count);
    let listed = choose|l: int| 0 <= l < count && keys[l] == own;
    assert(keys[listed].len() == width);
    assert(all_g2(own)) by {
        assert forall|i: int| 0 <= i < own.len() implies is_g2(#[trigger] own[i]) by {
            assert(is_g2(keys[listed][i]));
        }
    }
    lemma_hidden_members(reveal, n);
    assert forall|k: int| 0 <= k < hide.len() implies hide[k] < n by {
        assert(hide.contains(hide[k]));
    }
    lemma_values_selected(m, reveal);
    lemma_values_selected(m, hide);
    law_g2_mul(g2, 0);
    // the randomized signature: sigma1' is not the identity, sigma2' = sigma1' * w
    law_g1_mul(g1, rho);
    law_g1_mul_mul(g1, rho, r1);
    lemma_fr_units(rho, r1);
    law_g1_identity(g1, fr_prod(rho, r1));
    law_g1_mul(g1, fr_prod(rho, r1));
    assert(cred.sigma2@ == g1_mul(cred.sigma1@, signed_sum)) by {
        law_g1_mul_mul(g1, shared, rho);
        law_g1_mul_add(g1, fr_prod(shared, rho), fr_prod(rho, d));
        lemma_fr_basics(shared, rho);
        lemma_fr_distributes(rho, shared, d);
        law_g1_mul_mul(g1, rho, signed_sum);
    }
    assert(pt.sigma2@ == g1_mul(sigma1, w)) by {
        law_g1_mul_mul(cred.sigma1@, signed_sum, r1);
        law_g1_mul_mul(cred.sigma1@, r1, signed_sum);
        lemma_fr_basics(signed_sum, r1);
        law_g1_mul_add(sigma1, signed_sum, fr_opp(r2));
    }
    // the columns: what the holder folds, freed of a, and the totals
    let folds = Seq::new(width, |i: int| column_except(zero, t, keys, own, i, count as nat));
    let freed = Seq::new(width, |i: int| g2_mul(folds[i], fr_inv(a)));
    let totals = Seq::new(width, |i: int| column_total(shifts[i], keys, i, count as nat));
    lemma_policy_table_valid(g2, keys, a, bv);
    assert forall|l: int| 0 <= l < count implies (#[trigger] t[l]).len() == width by {
        assert(keys[l].len() == width);
    }
    assert(all_g2(folds)) by {
        assert forall|i: int| 0 <= i < width implies is_g2(#[trigger] folds[i]) by {
            assert forall|l: int| 0 <= l < count implies i < (#[trigger] t[l]).len() by {}
            lemma_column_except_valid(zero, t, keys, own, i, count as nat);
        }
    }
    assert(all_g2(freed)) by {
        assert forall|i: int| 0 <= i < width implies is_g2(#[trigger] freed[i]) by {
            assert(is_g2(folds[i]));
            law_g2_mul(folds[i], fr_inv(a));
        }
    }
    assert(all_g2(totals)) by {
        assert forall|i: int| 0 <= i < width implies is_g2(#[trigger] totals[i]) by {
            law_g2_mul(g2, fr_prod(bv[i], (count - 1) as nat));
            assert forall|l: int| 0 <= l < count implies i < (#[trigger] keys[l]).len() by {}
            lemma_column_total_valid(shifts[i], keys, i, count as nat);
        }
    }
    assert forall|i: int| 0 <= i < n implies #[trigger] totals[i] == g2_sum(freed[i], g2_mul(g2, y[i])) by {
        assert(is_g2(own[i]));
        assert(values(nonces.b@)[i] < modulus());
        lemma_column_unfolds(g2, keys, own, a, bv, i, count as nat);
    }
    // sigma~ * a^-1 = g2 * r2 + the freed folds' weighted sum
    let init = g2_mul(ppk.s@, r2);
    let fold_sum = g2_lincomb(zero, folds, mv, n);
    law_g2_mul(g2, a);
    law_g2_mul(ppk.s@, r2);
    lemma_others_fold_is_sum(init, zero, t, keys, own, mv, folds, n);
    lemma_g2_lincomb_from(init, g2, folds, mv, n);
    lemma_g2_lincomb_valid(zero, folds, mv, n);
    law_g2_add_mul(init, fold_sum, fr_inv(a));
    lemma_g2_lincomb_points_scaled(g2, folds, freed, mv, fr_inv(a), n);
    assert(g2_mul(init, fr_inv(a)) == g2_mul(g2, r2)) by {
        law_g2_mul_mul(g2, a, r2);
        law_g2_mul_mul(g2, fr_prod(a, r2), fr_inv(a));
        lemma_fr_basics(a, r2);
        lemma_fr_inverse_absorbed(r2, a);
    }
    let start = g2_sum(
        g2_mul(g2_mul(g2, shared), fr_opp(1)),
        g2_sum(g2_mul(g2, r2), g2_lincomb(zero, freed, mv, n)),
    );
    assert(start == g2_sum(g2_mul(pp.x2@, fr_opp(1)), g2_mul(pt.sigma_tilde@, fr_inv(policy.psk.a@))));
    // what is folded from shifts and keys is a weighted sum of the totals
    assert forall|k: int| 0 <= k < reveal.len() implies reveal[k] < totals.len() by {}
    assert forall|k: int| 0 <= k < hide.len() implies hide[k] < totals.len() by {}
    lemma_keyed_fold_is_sum(start, shifts, keys, reveal, negated(selected(mv, reveal)), totals, reveal.len());
    lemma_keyed_fold_is_sum(
        zero,
        shifts,
        keys,
        hide,
        masked_plus(values(b.k_i@), c, selected(mv, hide)),
        totals,
        hide.len(),
    );
    lemma_keyed_fold_is_sum(zero, shifts, keys, hide, values(b.k_i@), totals, hide.len());
    let first = g2_mul(g2, fr_prod(minus_c, w));
    let second = g2_mul(
        g2_lincomb_at(start, totals, reveal, negated(selected(mv, reveal)), reveal.len()),
        minus_c,
    );
    let third = g2_lincomb_at(zero, totals, hide, masked_plus(values(b.k_i@), c, selected(mv, hide)), hide.len());
    // the three pairings with sigma1' are one
    law_g2_mul(g2, minus_c);
    law_pairing_scalar(sigma1, g2_mul(g2, minus_c), w);
    law_g2_mul_mul(g2, minus_c, w);
    law_g2_mul(g2, fr_prod(minus_c, w));
    law_g2_mul(g2, shared);
    law_g2_mul(g2_mul(g2, shared), fr_opp(1));
    law_g2_mul(g2, r2);
    lemma_g2_lincomb_valid(zero, freed, mv, n);
    law_g2_sum(g2_mul(g2, r2), g2_lincomb(zero, freed, mv, n));
    law_g2_sum(g2_mul(g2_mul(g2, shared), fr_opp(1)), g2_sum(g2_mul(g2, r2), g2_lincomb(zero, freed, mv, n)));
    lemma_g2_lincomb_at_valid(start, totals, reveal, negated(selected(mv, reveal)), reveal.len());
    law_g2_mul(g2_lincomb_at(start, totals, reveal, negated(selected(mv, reveal)), reveal.len()), minus_c);
    lemma_g2_lincomb_at_valid(
        zero,
        totals,
        hide,
        masked_plus(values(b.k_i@), c, selected(mv, hide)),
        hide.len(),
    );
    law_g2_sum(first, second);
    law_pairing_right(sigma1, first, second);
    law_pairing_right(sigma1, g2_sum(first, second), third);
    lemma_fold_recomputed(g2, shared, y, freed, totals, mv, reveal, r2, values(b.k_i@), c);
    assert(recomputed_commitment(pp, policy, pt) == pairing(
        sigma1,
        g2_lincomb_at(zero, totals, hide, values(b.k_i@), hide.len()),
    ));
}

/// Whether two presentations hold the same elements, each list in the
/// same order.
pub open spec fn same_presentation(first: PresentationToken, second: PresentationToken) -> bool {
    &&& first.sigma1 == second.sigma1
    &&& first.sigma2 == second.sigma2
    &&& first.sigma_tilde == second.sigma_tilde
    &&& first.k == second.k
    &&& first.proof.z_i@ == second.proof.z_i@
    &&& first.proof.c == second.proof.c
    &&& first.len == second.len
    &&& first.open_messages@ == second.open_messages@
    &&& first.reveal_index@ == second.reveal_index@
}

/// The random scalars determine the presentation: two presentations that
/// the same scalars give for the same request hold the same elements.
pub proof fn lemma_presentation_determined(
    pp: PublicParameters,
    pk: PublicKey,
    cred: Signature,
    ppk: PolicyPublicKey,
    m: Seq<Scalar>,
    reveal: Seq<usize>,
    b: Blinding,
    first: PresentationToken,
    second: PresentationToken,
)
    requires
        proves(pp, pk, cred, ppk, m, reveal, b, first),
        proves(pp, pk, cred, ppk, m, reveal, b, second),
    ensures
        same_presentation(first, second),
{
    crate::group::lemma_g1_determined(first.sigma1, second.sigma1);
    crate::group::lemma_g1_determined(first.sigma2, second.sigma2);
    crate::group::lemma_g2_determined(first.sigma_tilde, second.sigma_tilde);
    crate::group::lemma_gt_determined(first.k, second.k);
    crate::linear::lemma_scalars_determined(first.open_messages@, second.open_messages@);
    crate::scalar::lemma_scalar_determined(first.proof.c, second.proof.c);
    crate::linear::lemma_scalars_determined(first.proof.z_i@, second.proof.z_i@);
}

} // verus!
