//! The proof of knowledge of a BBS signature with selective disclosure.
//!
//! A holder of `(A, e)` on `m` picks `r1`, `r2` and publishes
//! `D = (g1 + sum h[i] * m[i]) * r2^-1`, a blinded `A_bar` and
//! `B_bar = D * r1 - A_bar * u`, where the schemes differ in the factor that
//! blinds `A` and in the scalar `u` that takes the place of `e`. It then
//! proves knowledge of the exponents behind `B_bar` and behind the hidden
//! part of `D`, with commitments `U1`, `U2` and responses `s`, `t`, `z`, `v`.

use vstd::prelude::*;

use crate::algebra::{
    all_g1, group_laws, is_g1, law_g1_add_mul, law_g1_assoc, law_g1_mul, law_g1_mul_add, law_g1_mul_mul,
    law_g1_sum, law_inverse, lemma_fr_add_then_remove, lemma_fr_basics, lemma_fr_diff_is_sum,
    lemma_fr_opp_cancels, lemma_fr_opp_opp, lemma_fr_prod_assoc, lemma_fr_prod_opp, lemma_fr_small,
    lemma_g1_lincomb_at_add, lemma_g1_lincomb_at_from, lemma_g1_lincomb_at_valid, lemma_g1_lincomb_at_zero,
    lemma_g1_lincomb_from, lemma_g1_lincomb_scale, lemma_g1_lincomb_valid, lemma_g1_pair_add,
    lemma_g1_pair_scale, lemma_g1_partition, lemma_g1_swap_last, lemma_g1_swap_middle, lemma_g1_zero,
};
use crate::error::Error;
use crate::group::{g1_add, g1_mul, g1_scale, g1_sum, G1};
use crate::issuer::commitment;
use crate::linear::{
    check_distinct, check_indices, distinct_below, g1_combine, g1_combine_at, g1_lincomb, g1_lincomb_at,
    g1_views, hidden, increasing_below,
    lemma_hidden_members, masked_minus, respond_minus, scale_all, scaled, selected, values,
};
use crate::scalar::{fr_add, fr_diff, fr_inv, fr_mul, fr_neg, fr_opp, fr_prod, fr_sub, fr_sum, modulus, Scalar};
use crate::transcript::{
    absorb_g1, absorb_g1_list, absorb_index_list, absorb_scalar_list, concat, encodings, index_list_bytes,
};

verus! {

/// The holder's random scalars.
#[derive(Clone, Debug)]
pub struct Nonces {
    pub r1: Scalar,
    pub r2: Scalar,
    pub alpha: Scalar,
    pub beta: Scalar,
    pub gamma: Scalar,
    pub delta: Vec<Scalar>,
}

/// The randomized credential and the two commitments.
#[derive(Clone, Copy, Debug)]
pub struct Commitments {
    pub a_bar: G1,
    pub b_bar: G1,
    pub d: G1,
    pub u1: G1,
    pub u2: G1,
}

/// The responses to a challenge.
#[derive(Clone, Debug)]
pub struct Responses {
    pub s: Scalar,
    pub t: Scalar,
    pub z: Scalar,
    pub v: Vec<Scalar>,
}

/// Why a request to disclose the attributes at the given indices is
/// refused, if it is: there is no attribute or there are too many, an index
/// is out of range, or an index comes twice. The order of the indices is
/// free.
pub open spec fn input_error(n: nat, limit: nat, reveal: Seq<usize>) -> Option<Error> {
    if n == 0 || n > limit || !distinct_below(reveal, n) {
        Some(Error::InvalidParameter)
    } else {
        None
    }
}

/// Why the index list of a proof is refused, if it is: there is no
/// attribute or there are too many, or the indices are not increasing and
/// below the attribute count.
pub open spec fn disclosure_error(n: nat, limit: nat, open: Seq<usize>) -> Option<Error> {
    if n == 0 || n > limit || !increasing_below(open, n) {
        Some(Error::InvalidParameter)
    } else {
        None
    }
}

/// `D`: the commitment to the attributes, times the inverse of `r2`.
pub open spec fn d_point(g1: Seq<u8>, h: Seq<Seq<u8>>, m: Seq<nat>, r2_inv: nat) -> Seq<u8> {
    g1_mul(commitment(g1, h, m), r2_inv)
}

/// `B_bar = D * r1 - A_bar * u`.
pub open spec fn b_bar_point(d: Seq<u8>, a_bar: Seq<u8>, r1: nat, u: nat) -> Seq<u8> {
    g1_sum(g1_mul(d, r1), g1_mul(a_bar, fr_opp(u)))
}

/// `U1 = D * alpha + A_bar * beta`.
pub open spec fn u1_point(d: Seq<u8>, a_bar: Seq<u8>, alpha: nat, beta: nat) -> Seq<u8> {
    g1_sum(g1_mul(d, alpha), g1_mul(a_bar, beta))
}

/// `U2 = D * gamma + sum h[j] * delta[j]` over the hidden indices `j`.
pub open spec fn u2_point(d: Seq<u8>, h: Seq<Seq<u8>>, hide: Seq<usize>, gamma: nat, delta: Seq<nat>) -> Seq<
    u8,
> {
    g1_lincomb_at(g1_mul(d, gamma), h, hide, delta, hide.len())
}

/// `D * s + A_bar * t - B_bar * c`, which an honest proof makes equal to `U1`.
pub open spec fn u1_check(d: Seq<u8>, a_bar: Seq<u8>, b_bar: Seq<u8>, s: nat, t: nat, c: nat) -> Seq<u8> {
    g1_sum(g1_sum(g1_mul(d, s), g1_mul(a_bar, t)), g1_mul(b_bar, fr_opp(c)))
}

/// `D * z - g1 * c - sum h[i] * m[i] * c + sum h[j] * v[j]`, over the
/// disclosed indices `i` and the hidden indices `j`, which an honest proof
/// makes equal to `U2`.
pub open spec fn u2_check(
    g1: Seq<u8>,
    h: Seq<Seq<u8>>,
    d: Seq<u8>,
    reveal: Seq<usize>,
    shown: Seq<nat>,
    hide: Seq<usize>,
    z: nat,
    v: Seq<nat>,
    c: nat,
) -> Seq<u8> {
    g1_lincomb_at(
        g1_lincomb_at(
            g1_sum(g1_mul(d, z), g1_mul(g1, fr_opp(c))),
            h,
            reveal,
            scaled(shown, fr_opp(c)),
            reveal.len(),
        ),
        h,
        hide,
        v,
        hide.len(),
    )
}

/// The part of the challenge input that every scheme shares: the first `n`
/// generators, the disclosed indices, the disclosed attributes, then
/// `A_bar`, `B_bar`, `D`, `U1`, `U2`.
pub open spec fn head_bytes(
    h: Seq<Seq<u8>>,
    n: nat,
    reveal: Seq<usize>,
    shown: Seq<Seq<u8>>,
    a_bar: Seq<u8>,
    b_bar: Seq<u8>,
    d: Seq<u8>,
    u1: Seq<u8>,
    u2: Seq<u8>,
) -> Seq<u8> {
    concat(h, n) + index_list_bytes(reveal, reveal.len()) + concat(shown, shown.len()) + a_bar + b_bar + d + u1
        + u2
}

/// Whether an attribute count and a request to disclose the attributes at
/// the given indices are accepted.
pub fn check_inputs(n: usize, limit: usize, reveal: &Vec<usize>) -> (r: bool)
    ensures
        r == (input_error(n as nat, limit as nat, reveal@) is None),
{
    if n == 0 || n > limit {
        return false;
    }
    check_distinct(reveal, n)
}

/// Whether an attribute count and the index list of a proof are accepted.
pub fn check_disclosure(n: usize, limit: usize, open: &Vec<usize>) -> (r: bool)
    ensures
        r == (disclosure_error(n as nat, limit as nat, open@) is None),
{
    if n == 0 || n > limit {
        return false;
    }
    check_indices(open, n)
}

/// Randomizes the credential point `a` and commits.
pub(crate) fn commit(
    g1: &G1,
    h: &Vec<G1>,
    a: &G1,
    factor: &Scalar,
    u: &Scalar,
    m: &Vec<Scalar>,
    hide: &Vec<usize>,
    r2_inv: &Scalar,
    nonces: &Nonces,
) -> (r: Commitments)
    requires
        m.len() <= h.len(),
        hide.len() == nonces.delta.len(),
        forall|k: int| 0 <= k < hide.len() ==> hide[k] < h.len(),
    ensures
        r.d@ == d_point(g1@, g1_views(h@), values(m@), r2_inv@),
        r.a_bar@ == g1_mul(a@, factor@),
        r.b_bar@ == b_bar_point(r.d@, r.a_bar@, nonces.r1@, u@),
        r.u1@ == u1_point(r.d@, r.a_bar@, nonces.alpha@, nonces.beta@),
        r.u2@ == u2_point(r.d@, g1_views(h@), hide@, nonces.gamma@, values(nonces.delta@)),
{
    let b = g1_combine(g1, h, m, m.len());
    assert(values(m@).len() == m@.len());
    let d = g1_scale(&b, r2_inv);
    let a_bar = g1_scale(a, factor);
    let minus_u = fr_neg(u);
    let d_r1 = g1_scale(&d, &nonces.r1);
    let a_bar_u = g1_scale(&a_bar, &minus_u);
    let b_bar = g1_add(&d_r1, &a_bar_u);
    let d_alpha = g1_scale(&d, &nonces.alpha);
    let a_bar_beta = g1_scale(&a_bar, &nonces.beta);
    let u1 = g1_add(&d_alpha, &a_bar_beta);
    let d_gamma = g1_scale(&d, &nonces.gamma);
    let u2 = g1_combine_at(&d_gamma, h, hide, &nonces.delta);
    Commitments { a_bar, b_bar, d, u1, u2 }
}

/// Answers the challenge `c`.
pub(crate) fn respond(c: &Scalar, nonces: &Nonces, u: &Scalar, hidden_m: &Vec<Scalar>) -> (r: Responses)
    requires
        nonces.delta.len() == hidden_m.len(),
    ensures
        r.s@ == fr_sum(nonces.alpha@, fr_prod(c@, nonces.r1@)),
        r.t@ == fr_diff(nonces.beta@, fr_prod(c@, u@)),
        r.z@ == fr_sum(nonces.gamma@, fr_prod(c@, nonces.r2@)),
        values(r.v@) == masked_minus(values(nonces.delta@), c@, values(hidden_m@)),
{
    let c_r1 = fr_mul(c, &nonces.r1);
    let s = fr_add(&nonces.alpha, &c_r1);
    let c_u = fr_mul(c, u);
    let t = fr_sub(&nonces.beta, &c_u);
    let c_r2 = fr_mul(c, &nonces.r2);
    let z = fr_add(&nonces.gamma, &c_r2);
    let v = respond_minus(&nonces.delta, c, hidden_m);
    Responses { s, t, z, v }
}

/// Recomputes the first commitment from the responses.
pub fn recompute_u1(d: &G1, a_bar: &G1, b_bar: &G1, s: &Scalar, t: &Scalar, c: &Scalar) -> (r: G1)
    ensures
        r@ == u1_check(d@, a_bar@, b_bar@, s@, t@, c@),
{
    let minus_c = fr_neg(c);
    let d_s = g1_scale(d, s);
    let a_t = g1_scale(a_bar, t);
    let b_c = g1_scale(b_bar, &minus_c);
    let sum = g1_add(&d_s, &a_t);
    g1_add(&sum, &b_c)
}

/// Recomputes the second commitment from the responses.
pub(crate) fn recompute_u2(
    g1: &G1,
    h: &Vec<G1>,
    d: &G1,
    reveal: &Vec<usize>,
    shown: &Vec<Scalar>,
    hide: &Vec<usize>,
    z: &Scalar,
    v: &Vec<Scalar>,
    c: &Scalar,
) -> (r: G1)
    requires
        reveal.len() == shown.len(),
        hide.len() == v.len(),
        forall|k: int| 0 <= k < reveal.len() ==> reveal[k] < h.len(),
        forall|k: int| 0 <= k < hide.len() ==> hide[k] < h.len(),
    ensures
        r@ == u2_check(g1@, g1_views(h@), d@, reveal@, values(shown@), hide@, z@, values(v@), c@),
{
    let minus_c = fr_neg(c);
    let d_z = g1_scale(d, z);
    let g_c = g1_scale(g1, &minus_c);
    let start = g1_add(&d_z, &g_c);
    let weights = scale_all(shown, &minus_c);
    assert(weights.len() == shown.len()) by {
        assert(values(weights@).len() == weights@.len());
        assert(values(shown@).len() == shown@.len());
    }
    let with_shown = g1_combine_at(&start, h, reveal, &weights);
    g1_combine_at(&with_shown, h, hide, v)
}

/// Writes the shared part of the challenge input.
pub(crate) fn head(h: &Vec<G1>, n: usize, reveal: &Vec<usize>, shown: &Vec<Scalar>, c: &Commitments) -> (r: Vec<u8>)
    requires
        n <= h.len(),
    ensures
        r@ == head_bytes(
            g1_views(h@),
            n as nat,
            reveal@,
            encodings(shown@),
            c.a_bar@,
            c.b_bar@,
            c.d@,
            c.u1@,
            c.u2@,
        ),
{
    let mut buf: Vec<u8> = Vec::new();
    absorb_g1_list(&mut buf, h, n);
    absorb_index_list(&mut buf, reveal);
    absorb_scalar_list(&mut buf, shown);
    assert(encodings(shown@).len() == shown@.len());
    absorb_g1(&mut buf, &c.a_bar);
    absorb_g1(&mut buf, &c.b_bar);
    absorb_g1(&mut buf, &c.d);
    absorb_g1(&mut buf, &c.u1);
    absorb_g1(&mut buf, &c.u2);
    assert(buf@ =~= head_bytes(
        g1_views(h@),
        n as nat,
        reveal@,
        encodings(shown@),
        c.a_bar@,
        c.b_bar@,
        c.d@,
        c.u1@,
        c.u2@,
    ));
    buf
}

/// Under the laws of a bilinear group, the first commitment that a
/// verifier recomputes from honest responses is the holder's.
pub proof fn lemma_first_commitment_recomputed(
    d: Seq<u8>,
    a_bar: Seq<u8>,
    r1: nat,
    u: nat,
    alpha: nat,
    beta: nat,
    c: nat,
)
    requires
        group_laws(),
        is_g1(d),
        is_g1(a_bar),
        alpha < modulus(),
        beta < modulus(),
    ensures
        u1_check(
            d,
            a_bar,
            b_bar_point(d, a_bar, r1, u),
            fr_sum(alpha, fr_prod(c, r1)),
            fr_diff(beta, fr_prod(c, u)),
            c,
        ) == u1_point(d, a_bar, alpha, beta),
{
    let s = fr_sum(alpha, fr_prod(c, r1));
    let t = fr_diff(beta, fr_prod(c, u));
    let minus_c = fr_opp(c);
    // B_bar * -c = D * (r1 * -c) + A_bar * (-u * -c)
    lemma_g1_pair_scale(d, a_bar, r1, fr_opp(u), minus_c);
    // (D * s + A_bar * t) + (D * .. + A_bar * ..) gathers the scalars
    lemma_g1_pair_add(d, a_bar, s, t, fr_prod(r1, minus_c), fr_prod(fr_opp(u), minus_c));
    // s + r1 * -c = alpha
    lemma_fr_prod_opp(r1, c);
    lemma_fr_basics(r1, c);
    lemma_fr_add_then_remove(alpha, fr_prod(c, r1));
    // t + -u * -c = beta
    lemma_fr_diff_is_sum(beta, fr_prod(c, u));
    lemma_fr_prod_opp(minus_c, u);
    lemma_fr_prod_opp(u, c);
    lemma_fr_basics(u, c);
    lemma_fr_opp_opp(fr_prod(u, c));
    lemma_fr_add_then_remove(beta, fr_prod(c, u));
}

/// Under the laws of a bilinear group, the second commitment that a
/// verifier recomputes from honest responses is the holder's.
pub proof fn lemma_second_commitment_recomputed(
    g1: Seq<u8>,
    h: Seq<Seq<u8>>,
    m: Seq<nat>,
    reveal: Seq<usize>,
    r2: nat,
    gamma: nat,
    delta: Seq<nat>,
    c: nat,
)
    requires
        group_laws(),
        is_g1(g1),
        all_g1(h),
        m.len() <= h.len(),
        m.len() <= usize::MAX,
        increasing_below(reveal, m.len()),
        0 < r2 < modulus(),
        c < modulus(),
        delta.len() == hidden(reveal, m.len()).len(),
    ensures
        ({
            let hide = hidden(reveal, m.len());
            let d = d_point(g1, h, m, fr_inv(r2));
            u2_check(
                g1,
                h,
                d,
                reveal,
                selected(m, reveal),
                hide,
                fr_sum(gamma, fr_prod(c, r2)),
                masked_minus(delta, c, selected(m, hide)),
                c,
            ) == u2_point(d, h, hide, gamma, delta)
        }),
{
    let n = m.len();
    let hide = hidden(reveal, n);
    let zero = g1_mul(g1, 0);
    let minus_c = fr_opp(c);
    let inverse = fr_inv(r2);
    let b = commitment(g1, h, m);
    let x = g1_lincomb(zero, h, m, n);
    let d = g1_mul(b, inverse);
    let z = fr_sum(gamma, fr_prod(c, r2));
    let shown = selected(m, reveal);
    let v = masked_minus(delta, c, selected(m, hide));

    lemma_hidden_members(reveal, n);
    assert forall|k: int| 0 <= k < hide.len() implies hide[k] < n by {
        assert(hide.contains(hide[k]));
    }
    law_g1_mul(g1, 0);
    lemma_g1_lincomb_valid(g1, h, m, n);
    lemma_g1_lincomb_valid(zero, h, m, n);
    law_g1_mul(b, inverse);

    // D * z = D * gamma + B * c
    let d_gamma = g1_mul(d, gamma);
    let b_c = g1_mul(b, c);
    law_g1_mul(d, gamma);
    law_g1_mul(b, c);
    law_g1_mul_add(d, gamma, fr_prod(c, r2));
    law_g1_mul_mul(b, inverse, fr_prod(c, r2));
    assert(fr_prod(inverse, fr_prod(c, r2)) == c) by {
        law_inverse(r2);
        lemma_fr_basics(c, r2);
        lemma_fr_prod_assoc(inverse, r2, c);
        lemma_fr_small(c);
    }
    assert(g1_mul(d, z) == g1_sum(d_gamma, b_c));

    // B * c = g1 * c + X * c, and X * c splits into the disclosed and the hidden part
    let x_c = g1_mul(x, c);
    law_g1_mul(x, c);
    law_g1_mul(g1, c);
    law_g1_mul(g1, minus_c);
    lemma_g1_lincomb_from(g1, g1, h, m, n);
    law_g1_add_mul(g1, x, c);
    assert(b_c == g1_sum(g1_mul(g1, c), x_c));
    let weights = scaled(m, c);
    lemma_g1_lincomb_scale(g1, h, m, c, n);
    lemma_g1_partition(g1, h, weights, reveal, n);
    let shown_c = g1_lincomb_at(zero, h, reveal, selected(weights, reveal), reveal.len());
    let hidden_c = g1_lincomb_at(zero, h, hide, selected(weights, hide), hide.len());
    lemma_g1_lincomb_at_valid(zero, h, reveal, selected(weights, reveal), reveal.len());
    lemma_g1_lincomb_at_valid(zero, h, hide, selected(weights, hide), hide.len());
    assert(x_c == g1_sum(shown_c, hidden_c));

    // the start of the verifier's sum: (D * gamma + B * c) + g1 * -c = D * gamma + X * c
    let start = g1_sum(g1_mul(d, z), g1_mul(g1, minus_c));
    assert(start == g1_sum(d_gamma, x_c)) by {
        law_g1_sum(g1_mul(g1, c), x_c);
        law_g1_assoc(d_gamma, x_c, g1_mul(g1, c));
        law_g1_sum(d_gamma, x_c);
        law_g1_assoc(g1_sum(d_gamma, x_c), g1_mul(g1, c), g1_mul(g1, minus_c));
        law_g1_mul_add(g1, c, minus_c);
        lemma_fr_opp_cancels(c);
        lemma_g1_zero(g1_sum(d_gamma, x_c), g1);
    }
    law_g1_sum(d_gamma, x_c);

    // what the verifier adds for the disclosed attributes cancels the disclosed part
    let shown_back = g1_lincomb_at(zero, h, reveal, scaled(shown, minus_c), reveal.len());
    lemma_g1_lincomb_at_valid(zero, h, reveal, scaled(shown, minus_c), reveal.len());
    let nothing_shown = Seq::new(reveal.len(), |j: int| 0nat);
    assert forall|j: int| 0 <= j < reveal.len() implies nothing_shown[j] == fr_sum(
        selected(weights, reveal)[j],
        scaled(shown, minus_c)[j],
    ) by {
        let a = m[reveal[j] as int];
        lemma_fr_prod_opp(a, c);
        lemma_fr_opp_cancels(fr_prod(a, c));
    }
    lemma_g1_lincomb_at_add(
        g1,
        h,
        reveal,
        nothing_shown,
        selected(weights, reveal),
        scaled(shown, minus_c),
        reveal.len(),
    );
    lemma_g1_lincomb_at_zero(g1, h, reveal, nothing_shown, reveal.len());
    assert(g1_sum(shown_c, shown_back) == zero);

    // the responses for the hidden attributes are the blinds minus the hidden part
    let hidden_delta = g1_lincomb_at(zero, h, hide, delta, hide.len());
    let minus_hidden = Seq::new(hide.len(), |j: int| fr_opp(fr_prod(c, m[hide[j] as int])));
    let hidden_back = g1_lincomb_at(zero, h, hide, minus_hidden, hide.len());
    let hidden_v = g1_lincomb_at(zero, h, hide, v, hide.len());
    lemma_g1_lincomb_at_valid(zero, h, hide, delta, hide.len());
    lemma_g1_lincomb_at_valid(zero, h, hide, minus_hidden, hide.len());
    lemma_g1_lincomb_at_valid(zero, h, hide, v, hide.len());
    assert forall|j: int| 0 <= j < hide.len() implies v[j] == fr_sum(delta[j], minus_hidden[j]) by {
        lemma_fr_diff_is_sum(delta[j], fr_prod(c, m[hide[j] as int]));
    }
    lemma_g1_lincomb_at_add(g1, h, hide, v, delta, minus_hidden, hide.len());
    assert(hidden_v == g1_sum(hidden_delta, hidden_back));
    let nothing_hidden = Seq::new(hide.len(), |j: int| 0nat);
    assert forall|j: int| 0 <= j < hide.len() implies nothing_hidden[j] == fr_sum(
        selected(weights, hide)[j],
        minus_hidden[j],
    ) by {
        let a = m[hide[j] as int];
        assert(hide[j] < n);
        assert(selected(weights, hide)[j] == fr_prod(a, c));
        lemma_fr_basics(a, c);
        lemma_fr_opp_cancels(fr_prod(a, c));
    }
    lemma_g1_lincomb_at_add(g1, h, hide, nothing_hidden, selected(weights, hide), minus_hidden, hide.len());
    lemma_g1_lincomb_at_zero(g1, h, hide, nothing_hidden, hide.len());
    assert(g1_sum(hidden_c, hidden_back) == zero);

    // the verifier's sum, taken apart
    let with_shown = g1_lincomb_at(start, h, reveal, scaled(shown, minus_c), reveal.len());
    lemma_g1_lincomb_at_from(start, g1, h, reveal, scaled(shown, minus_c), reveal.len());
    law_g1_sum(start, shown_back);
    lemma_g1_lincomb_at_from(with_shown, g1, h, hide, v, hide.len());
    assert(u2_check(g1, h, d, reveal, shown, hide, z, v, c) == g1_sum(g1_sum(start, shown_back), hidden_v));
    // (D * gamma + (shown_c + hidden_c)) + shown_back = D * gamma + hidden_c
    assert(g1_sum(start, shown_back) == g1_sum(d_gamma, hidden_c)) by {
        law_g1_assoc(d_gamma, x_c, shown_back);
        lemma_g1_swap_last(shown_c, hidden_c, shown_back);
        lemma_g1_zero(hidden_c, g1);
    }
    // (D * gamma + hidden_c) + (hidden_delta + hidden_back) = D * gamma + hidden_delta
    assert(g1_sum(g1_sum(d_gamma, hidden_c), hidden_v) == g1_sum(d_gamma, hidden_delta)) by {
        lemma_g1_swap_middle(d_gamma, hidden_c, hidden_delta, hidden_back);
        law_g1_sum(d_gamma, hidden_delta);
        lemma_g1_zero(g1_sum(d_gamma, hidden_delta), g1);
    }
    lemma_g1_lincomb_at_from(d_gamma, g1, h, hide, delta, hide.len());
}

/// Under the laws of a bilinear group, the randomized credential is bound
/// to its blinded companion: where the signature point is `B * i`, and the
/// scalar `y` stands for the key and `u` for the nonce with
/// `k * y + k * u = r2^-1 * r1` for `k = i * factor`, there
/// `A_bar * y = B_bar`.
pub proof fn lemma_randomized_credential(
    b: Seq<u8>,
    i: nat,
    factor: nat,
    r2_inv: nat,
    r1: nat,
    u: nat,
    y: nat,
)
    requires
        group_laws(),
        is_g1(b),
        fr_sum(fr_prod(fr_prod(i, factor), y), fr_prod(fr_prod(i, factor), u)) == fr_prod(r2_inv, r1),
    ensures
        ({
            let a_bar = g1_mul(g1_mul(b, i), factor);
            let d = g1_mul(b, r2_inv);
            g1_mul(a_bar, y) == b_bar_point(d, a_bar, r1, u)
        }),
{
    let k = fr_prod(i, factor);
    let a_bar = g1_mul(g1_mul(b, i), factor);
    law_g1_mul_mul(b, i, factor);
    law_g1_mul_mul(b, k, y);
    law_g1_mul_mul(b, k, fr_opp(u));
    law_g1_mul_mul(b, r2_inv, r1);
    law_g1_mul_add(b, fr_prod(r2_inv, r1), fr_prod(k, fr_opp(u)));
    lemma_fr_prod_opp(k, u);
    lemma_fr_basics(k, y);
    lemma_fr_add_then_remove(fr_prod(k, y), fr_prod(k, u));
}

} // verus!
