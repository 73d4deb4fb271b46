//! The laws of a bilinear group of prime order, as a hypothesis.
//!
//! The library computes with the curve through named operations and knows
//! nothing of them but their names. What a protocol promises an honest
//! party rests on the algebra behind the names: that the scalars form a
//! field, that each source group is a vector space over it, and that the
//! pairing is bilinear. [`group_laws`] says so, of the names, and no
//! function of the library assumes it. The lemmas here draw single
//! instances from it; the laws of the schemes are proved from it in the
//! modules of the schemes, each with `group_laws()` among its premises.

use vstd::arithmetic::div_mod::{
    lemma_add_mod_noop, lemma_mod_bound, lemma_mod_multiples_vanish, lemma_mul_mod_noop_general, lemma_small_mod,
    lemma_sub_mod_noop,
};
use vstd::prelude::*;

use crate::group::{
    g1_decoding, g1_is_identity, g1_mul, g1_sum, g2_decoding, g2_is_identity, g2_mul, g2_sum, gt_sum, pairing,
};
use crate::linear::{
    g1_lincomb, g1_lincomb_at, g2_lincomb, g2_lincomb_at, g2_sum_all, hidden, increasing_below, lemma_hidden_agree,
    lemma_hidden_members, scaled, selected,
};
use crate::scalar::{fr_diff, fr_inv, fr_inverse_of, fr_opp, fr_prod, fr_sum, modulus};

verus! {

/// Whether a byte string is the canonical encoding of a point of the first
/// group.
pub open spec fn is_g1(p: Seq<u8>) -> bool {
    g1_decoding(p) == Some(p)
}

/// Whether a byte string is the canonical encoding of a point of the second
/// group.
pub open spec fn is_g2(p: Seq<u8>) -> bool {
    g2_decoding(p) == Some(p)
}

/// Whether every byte string of a list is a point of the first group.
pub open spec fn all_g1(points: Seq<Seq<u8>>) -> bool {
    forall|i: int| 0 <= i < points.len() ==> is_g1(#[trigger] points[i])
}

/// Whether every byte string of a list is a point of the second group.
pub open spec fn all_g2(points: Seq<Seq<u8>>) -> bool {
    forall|i: int| 0 <= i < points.len() ==> is_g2(#[trigger] points[i])
}

/// The laws: every non-zero scalar has an inverse; each source group is
/// closed, commutative and associative, scalar multiplication is an action
/// that distributes both ways, one acts as the identity and zero gives the
/// identity, which a point times a scalar is only if the point is or the
/// scalar is zero; the pairing is additive in both arguments and a scalar
/// moves between them.
#[verifier::opaque]
pub open spec fn group_laws() -> bool {
    &&& forall|a: nat| 0 < a < modulus() ==> fr_inverse_of(a, #[trigger] fr_inv(a))
    &&& forall|p: Seq<u8>, q: Seq<u8>|
        is_g1(p) && is_g1(q) ==> is_g1(#[trigger] g1_sum(p, q)) && g1_sum(p, q) == g1_sum(q, p)
    &&& forall|p: Seq<u8>, a: nat| is_g1(p) ==> is_g1(#[trigger] g1_mul(p, a))
    &&& forall|p: Seq<u8>, q: Seq<u8>, r: Seq<u8>|
        is_g1(p) && is_g1(q) && is_g1(r) ==> #[trigger] g1_sum(g1_sum(p, q), r) == g1_sum(p, g1_sum(q, r))
    &&& forall|p: Seq<u8>, a: nat, b: nat|
        is_g1(p) ==> #[trigger] g1_mul(g1_mul(p, a), b) == g1_mul(p, fr_prod(a, b))
    &&& forall|p: Seq<u8>, a: nat, b: nat|
        is_g1(p) ==> #[trigger] g1_sum(g1_mul(p, a), g1_mul(p, b)) == g1_mul(p, fr_sum(a, b))
    &&& forall|p: Seq<u8>, q: Seq<u8>, a: nat|
        is_g1(p) && is_g1(q) ==> #[trigger] g1_mul(g1_sum(p, q), a) == g1_sum(g1_mul(p, a), g1_mul(q, a))
    &&& forall|p: Seq<u8>| is_g1(p) ==> #[trigger] g1_mul(p, 1) == p
    &&& forall|p: Seq<u8>, q: Seq<u8>| is_g1(p) && is_g1(q) ==> #[trigger] g1_sum(p, g1_mul(q, 0)) == p
    &&& forall|p: Seq<u8>, a: nat|
        is_g1(p) && a < modulus() ==> (g1_is_identity(#[trigger] g1_mul(p, a)) <==> g1_is_identity(p) || a == 0)
    &&& forall|p: Seq<u8>, q: Seq<u8>|
        is_g2(p) && is_g2(q) ==> is_g2(#[trigger] g2_sum(p, q)) && g2_sum(p, q) == g2_sum(q, p)
    &&& forall|p: Seq<u8>, a: nat| is_g2(p) ==> is_g2(#[trigger] g2_mul(p, a))
    &&& forall|p: Seq<u8>, q: Seq<u8>, r: Seq<u8>|
        is_g2(p) && is_g2(q) && is_g2(r) ==> #[trigger] g2_sum(g2_sum(p, q), r) == g2_sum(p, g2_sum(q, r))
    &&& forall|p: Seq<u8>, a: nat, b: nat|
        is_g2(p) ==> #[trigger] g2_mul(g2_mul(p, a), b) == g2_mul(p, fr_prod(a, b))
    &&& forall|p: Seq<u8>, a: nat, b: nat|
        is_g2(p) ==> #[trigger] g2_sum(g2_mul(p, a), g2_mul(p, b)) == g2_mul(p, fr_sum(a, b))
    &&& forall|p: Seq<u8>, q: Seq<u8>, a: nat|
        is_g2(p) && is_g2(q) ==> #[trigger] g2_mul(g2_sum(p, q), a) == g2_sum(g2_mul(p, a), g2_mul(q, a))
    &&& forall|p: Seq<u8>| is_g2(p) ==> #[trigger] g2_mul(p, 1) == p
    &&& forall|p: Seq<u8>, q: Seq<u8>| is_g2(p) && is_g2(q) ==> #[trigger] g2_sum(p, g2_mul(q, 0)) == p
    &&& forall|p: Seq<u8>, a: nat|
        is_g2(p) && a < modulus() ==> (g2_is_identity(#[trigger] g2_mul(p, a)) <==> g2_is_identity(p) || a == 0)
    &&& forall|p: Seq<u8>, q: Seq<u8>, r: Seq<u8>|
        is_g1(p) && is_g1(q) && is_g2(r) ==> #[trigger] pairing(g1_sum(p, q), r) == gt_sum(
            pairing(p, r),
            pairing(q, r),
        )
    &&& forall|p: Seq<u8>, q: Seq<u8>, r: Seq<u8>|
        is_g1(p) && is_g2(q) && is_g2(r) ==> #[trigger] pairing(p, g2_sum(q, r)) == gt_sum(
            pairing(p, q),
            pairing(p, r),
        )
    &&& forall|p: Seq<u8>, q: Seq<u8>, a: nat|
        is_g1(p) && is_g2(q) ==> #[trigger] pairing(g1_mul(p, a), q) == pairing(p, g2_mul(q, a))
    &&& forall|a: Seq<u8>, b: Seq<u8>| #[trigger] gt_sum(a, b) == gt_sum(b, a)
    &&& forall|a: Seq<u8>, b: Seq<u8>, c: Seq<u8>| #[trigger] gt_sum(gt_sum(a, b), c) == gt_sum(a, gt_sum(b, c))
    &&& forall|a: Seq<u8>, p: Seq<u8>, q: Seq<u8>|
        is_g1(p) && is_g2(q) ==> #[trigger] gt_sum(a, pairing(p, g2_mul(q, 0))) == a
}

/// A non-zero scalar times its inverse is one.
pub proof fn law_inverse(a: nat)
    requires
        group_laws(),
        0 < a < modulus(),
    ensures
        fr_prod(a, fr_inv(a)) == 1,
        fr_prod(fr_inv(a), a) == 1,
        fr_inv(a) < modulus(),
{
    reveal(fr_sum);
    reveal(fr_prod);
    reveal(fr_opp);
    reveal(fr_diff);
    reveal(group_laws);
    assert(fr_inverse_of(a, fr_inv(a)));
    assert(a * fr_inv(a) == fr_inv(a) * a) by (nonlinear_arith);
}

/// The sum of two points of the first group is one, whichever comes first.
pub proof fn law_g1_sum(p: Seq<u8>, q: Seq<u8>)
    requires
        group_laws(),
        is_g1(p),
        is_g1(q),
    ensures
        is_g1(g1_sum(p, q)),
        g1_sum(p, q) == g1_sum(q, p),
{
    reveal(group_laws);
}

/// A point of the first group times a scalar is one.
pub proof fn law_g1_mul(p: Seq<u8>, a: nat)
    requires
        group_laws(),
        is_g1(p),
    ensures
        is_g1(g1_mul(p, a)),
{
    reveal(group_laws);
}

/// Sums in the first group may be regrouped.
pub proof fn law_g1_assoc(p: Seq<u8>, q: Seq<u8>, r: Seq<u8>)
    requires
        group_laws(),
        is_g1(p),
        is_g1(q),
        is_g1(r),
    ensures
        g1_sum(g1_sum(p, q), r) == g1_sum(p, g1_sum(q, r)),
{
    reveal(group_laws);
}

/// Scaling twice is scaling by the product.
pub proof fn law_g1_mul_mul(p: Seq<u8>, a: nat, b: nat)
    requires
        group_laws(),
        is_g1(p),
    ensures
        g1_mul(g1_mul(p, a), b) == g1_mul(p, fr_prod(a, b)),
{
    reveal(group_laws);
}

/// Scaling by a sum is the sum of the scalings.
pub proof fn law_g1_mul_add(p: Seq<u8>, a: nat, b: nat)
    requires
        group_laws(),
        is_g1(p),
    ensures
        g1_sum(g1_mul(p, a), g1_mul(p, b)) == g1_mul(p, fr_sum(a, b)),
{
    reveal(group_laws);
}

/// Scaling a sum is the sum of the scalings.
pub proof fn law_g1_add_mul(p: Seq<u8>, q: Seq<u8>, a: nat)
    requires
        group_laws(),
        is_g1(p),
        is_g1(q),
    ensures
        g1_mul(g1_sum(p, q), a) == g1_sum(g1_mul(p, a), g1_mul(q, a)),
{
    reveal(group_laws);
}

/// Scaling by one changes nothing, and adding a point scaled by zero
/// changes nothing.
pub proof fn law_g1_unit(p: Seq<u8>, q: Seq<u8>)
    requires
        group_laws(),
        is_g1(p),
        is_g1(q),
    ensures
        g1_mul(p, 1) == p,
        g1_sum(p, g1_mul(q, 0)) == p,
{
    reveal(group_laws);
}

/// A point times a scalar is the identity only if the point is or the
/// scalar is zero.
pub proof fn law_g1_identity(p: Seq<u8>, a: nat)
    requires
        group_laws(),
        is_g1(p),
        a < modulus(),
    ensures
        g1_is_identity(g1_mul(p, a)) <==> g1_is_identity(p) || a == 0,
{
    reveal(group_laws);
}

/// The sum of two points of the second group is one, whichever comes first.
pub proof fn law_g2_sum(p: Seq<u8>, q: Seq<u8>)
    requires
        group_laws(),
        is_g2(p),
        is_g2(q),
    ensures
        is_g2(g2_sum(p, q)),
        g2_sum(p, q) == g2_sum(q, p),
{
    reveal(group_laws);
}

/// A point of the second group times a scalar is one.
pub proof fn law_g2_mul(p: Seq<u8>, a: nat)
    requires
        group_laws(),
        is_g2(p),
    ensures
        is_g2(g2_mul(p, a)),
{
    reveal(group_laws);
}

/// Sums in the second group may be regrouped.
pub proof fn law_g2_assoc(p: Seq<u8>, q: Seq<u8>, r: Seq<u8>)
    requires
        group_laws(),
        is_g2(p),
        is_g2(q),
        is_g2(r),
    ensures
        g2_sum(g2_sum(p, q), r) == g2_sum(p, g2_sum(q, r)),
{
    reveal(group_laws);
}

/// Scaling twice is scaling by the product.
pub proof fn law_g2_mul_mul(p: Seq<u8>, a: nat, b: nat)
    requires
        group_laws(),
        is_g2(p),
    ensures
        g2_mul(g2_mul(p, a), b) == g2_mul(p, fr_prod(a, b)),
{
    reveal(group_laws);
}

/// Scaling by a sum is the sum of the scalings.
pub proof fn law_g2_mul_add(p: Seq<u8>, a: nat, b: nat)
    requires
        group_laws(),
        is_g2(p),
    ensures
        g2_sum(g2_mul(p, a), g2_mul(p, b)) == g2_mul(p, fr_sum(a, b)),
{
    reveal(group_laws);
}

/// Scaling a sum is the sum of the scalings.
pub proof fn law_g2_add_mul(p: Seq<u8>, q: Seq<u8>, a: nat)
    requires
        group_laws(),
        is_g2(p),
        is_g2(q),
    ensures
        g2_mul(g2_sum(p, q), a) == g2_sum(g2_mul(p, a), g2_mul(q, a)),
{
    reveal(group_laws);
}

/// Scaling by one changes nothing, and adding a point scaled by zero
/// changes nothing.
pub proof fn law_g2_unit(p: Seq<u8>, q: Seq<u8>)
    requires
        group_laws(),
        is_g2(p),
        is_g2(q),
    ensures
        g2_mul(p, 1) == p,
        g2_sum(p, g2_mul(q, 0)) == p,
{
    reveal(group_laws);
}

/// A point times a scalar is the identity only if the point is or the
/// scalar is zero.
pub proof fn law_g2_identity(p: Seq<u8>, a: nat)
    requires
        group_laws(),
        is_g2(p),
        a < modulus(),
    ensures
        g2_is_identity(g2_mul(p, a)) <==> g2_is_identity(p) || a == 0,
{
    reveal(group_laws);
}

/// The pairing is additive in its first argument.
pub proof fn law_pairing_left(p: Seq<u8>, q: Seq<u8>, r: Seq<u8>)
    requires
        group_laws(),
        is_g1(p),
        is_g1(q),
        is_g2(r),
    ensures
        pairing(g1_sum(p, q), r) == gt_sum(pairing(p, r), pairing(q, r)),
{
    reveal(group_laws);
}

/// The pairing is additive in its second argument.
pub proof fn law_pairing_right(p: Seq<u8>, q: Seq<u8>, r: Seq<u8>)
    requires
        group_laws(),
        is_g1(p),
        is_g2(q),
        is_g2(r),
    ensures
        pairing(p, g2_sum(q, r)) == gt_sum(pairing(p, q), pairing(p, r)),
{
    reveal(group_laws);
}

/// A scalar moves from one argument of the pairing to the other.
pub proof fn law_pairing_scalar(p: Seq<u8>, q: Seq<u8>, a: nat)
    requires
        group_laws(),
        is_g1(p),
        is_g2(q),
    ensures
        pairing(g1_mul(p, a), q) == pairing(p, g2_mul(q, a)),
{
    reveal(group_laws);
}

/// The composition of the target group does not depend on the order or on
/// the grouping.
pub proof fn law_gt_sum(a: Seq<u8>, b: Seq<u8>, c: Seq<u8>)
    requires
        group_laws(),
    ensures
        gt_sum(a, b) == gt_sum(b, a),
        gt_sum(gt_sum(a, b), c) == gt_sum(a, gt_sum(b, c)),
{
    reveal(group_laws);
}

/// A pairing with the identity is neutral in the target group.
pub proof fn law_gt_zero(a: Seq<u8>, p: Seq<u8>, q: Seq<u8>)
    requires
        group_laws(),
        is_g1(p),
        is_g2(q),
    ensures
        gt_sum(a, pairing(p, g2_mul(q, 0))) == a,
{
    reveal(group_laws);
}

/// `(a + b) + (c + d) = (a + c) + (b + d)` in the target group.
pub proof fn lemma_gt_swap_middle(a: Seq<u8>, b: Seq<u8>, c: Seq<u8>, d: Seq<u8>)
    requires
        group_laws(),
    ensures
        gt_sum(gt_sum(a, b), gt_sum(c, d)) == gt_sum(gt_sum(a, c), gt_sum(b, d)),
{
    law_gt_sum(a, b, gt_sum(c, d));
    law_gt_sum(b, c, d);
    law_gt_sum(c, b, d);
    law_gt_sum(a, c, gt_sum(b, d));
}

/// Two pairings of one point with a point times a scalar and with the same
/// point times the additive inverse of the scalar cancel.
pub proof fn lemma_pairing_cancels(a: Seq<u8>, p: Seq<u8>, q: Seq<u8>, k: nat)
    requires
        group_laws(),
        is_g1(p),
        is_g2(q),
    ensures
        gt_sum(a, gt_sum(pairing(p, g2_mul(q, k)), pairing(p, g2_mul(q, fr_opp(k))))) == a,
{
    law_g2_mul(q, k);
    law_g2_mul(q, fr_opp(k));
    law_pairing_right(p, g2_mul(q, k), g2_mul(q, fr_opp(k)));
    lemma_g2_cancel(q, k);
    law_gt_zero(a, p, q);
}

/// `((a + (b1 + b2)) + (c + d)) + e = ((a + c) + (b1 + e)) + (b2 + d)` in
/// the target group.
pub proof fn lemma_gt_regroup(a: Seq<u8>, b1: Seq<u8>, b2: Seq<u8>, c: Seq<u8>, d: Seq<u8>, e: Seq<u8>)
    requires
        group_laws(),
    ensures
        gt_sum(gt_sum(gt_sum(a, gt_sum(b1, b2)), gt_sum(c, d)), e) == gt_sum(
            gt_sum(gt_sum(a, c), gt_sum(b1, e)),
            gt_sum(b2, d),
        ),
{
    let ac = gt_sum(a, c);
    let tail = gt_sum(b2, d);
    lemma_gt_swap_middle(a, gt_sum(b1, b2), c, d);
    law_gt_sum(b1, b2, d);
    law_gt_sum(ac, b1, tail);
    law_gt_sum(gt_sum(ac, b1), tail, e);
    law_gt_sum(tail, e, e);
    law_gt_sum(gt_sum(ac, b1), e, tail);
    law_gt_sum(ac, b1, e);
}

/// A commitment recomputed with two cancelling pairs of pairings is the
/// commitment: `((a + (b1 + b2)) + (c + d)) + e = a + c` where `b1` cancels
/// `e` and `b2` cancels `d`.
pub proof fn lemma_gt_two_pairs_cancel(
    a: Seq<u8>,
    c: Seq<u8>,
    pa: Seq<u8>,
    qa: Seq<u8>,
    ka: nat,
    pb: Seq<u8>,
    qb: Seq<u8>,
    kb: nat,
)
    requires
        group_laws(),
        is_g1(pa),
        is_g2(qa),
        is_g1(pb),
        is_g2(qb),
    ensures
        gt_sum(
            gt_sum(
                gt_sum(a, gt_sum(pairing(pa, g2_mul(qa, ka)), pairing(pb, g2_mul(qb, kb)))),
                gt_sum(c, pairing(pb, g2_mul(qb, fr_opp(kb)))),
            ),
            pairing(pa, g2_mul(qa, fr_opp(ka))),
        ) == gt_sum(a, c),
{
    let ba = pairing(pa, g2_mul(qa, ka));
    let bb = pairing(pb, g2_mul(qb, kb));
    let d = pairing(pb, g2_mul(qb, fr_opp(kb)));
    let e = pairing(pa, g2_mul(qa, fr_opp(ka)));
    lemma_gt_regroup(a, ba, bb, c, d, e);
    lemma_pairing_cancels(gt_sum(a, c), pa, qa, ka);
    lemma_pairing_cancels(gt_sum(a, c), pb, qb, kb);
}

/// What blinds a signature and what unblinds it cancel: with the inverses
/// of a nonce, of a randomizer and of a blinding scalar on one side, and
/// the nonce, the randomizer and the blinding scalar on the other, a
/// challenge is all that is left.
pub proof fn lemma_fr_blinding_cancels(c: nat, r: nat, rho: nat, alpha: nat)
    requires
        group_laws(),
        c < modulus(),
        0 < r < modulus(),
        0 < rho < modulus(),
        0 < alpha < modulus(),
    ensures
        fr_prod(
            fr_prod(fr_prod(fr_prod(fr_inv(r), fr_inv(rho)), fr_inv(alpha)), fr_prod(c, alpha)),
            fr_prod(r, rho),
        ) == c,
{
    let both = fr_prod(fr_inv(r), fr_inv(rho));
    lemma_fr_units(r, rho);
    lemma_fr_units(rho, alpha);
    lemma_fr_basics(fr_inv(r), fr_inv(rho));
    // (both * alpha^-1) * (c * alpha) = both * c
    lemma_fr_prod_assoc(both, fr_inv(alpha), fr_prod(c, alpha));
    lemma_fr_inverse_absorbed(c, alpha);
    // (both * c) * (r * rho) = c * (both * (r * rho)) = c
    lemma_fr_basics(both, c);
    lemma_fr_prod_assoc(c, both, fr_prod(r, rho));
    lemma_fr_prod_assoc(fr_inv(r), fr_inv(rho), fr_prod(r, rho));
    lemma_fr_basics(r, rho);
    lemma_fr_inverse_absorbed(r, rho);
    law_inverse(r);
    lemma_fr_small(c);
}

/// `(b * o) * c + (r - c * b) * o = r * o` in the scalar field.
pub proof fn lemma_fr_shift_response(b: nat, o: nat, c: nat, r: nat)
    ensures
        fr_sum(fr_prod(fr_prod(b, o), c), fr_prod(fr_diff(r, fr_prod(c, b)), o)) == fr_prod(r, o),
{
    let cb = fr_prod(c, b);
    // (b * o) * c = (c * b) * o
    assert(fr_prod(fr_prod(b, o), c) == fr_prod(cb, o)) by {
        lemma_fr_basics(fr_prod(b, o), c);
        lemma_fr_prod_assoc(c, b, o);
    }
    // (r - cb) * o = r * o + -(cb) * o
    lemma_fr_diff_is_sum(r, cb);
    lemma_fr_distributes(o, r, fr_opp(cb));
    lemma_fr_prod_opp(o, cb);
    lemma_fr_basics(cb, o);
    // cb * o + (r * o + -(cb * o)) = r * o
    let ro = fr_prod(r, o);
    let co = fr_prod(cb, o);
    lemma_fr_basics(r, o);
    lemma_fr_basics(co, fr_sum(ro, fr_opp(co)));
    lemma_fr_add_then_remove(ro, co);
    lemma_fr_sum_assoc(ro, fr_opp(co), co);
    lemma_fr_opp_cancels(co);
    lemma_fr_small(ro);
}

/// The additive inverse of a sum is the sum of the additive inverses.
pub proof fn lemma_fr_opp_sum(a: nat, b: nat)
    ensures
        fr_opp(fr_sum(a, b)) == fr_sum(fr_opp(a), fr_opp(b)),
{
    // both sides, added to a + b, give zero
    let s = fr_sum(a, b);
    let t = fr_sum(fr_opp(a), fr_opp(b));
    lemma_fr_basics(a, b);
    lemma_fr_basics(fr_opp(a), fr_opp(b));
    lemma_fr_basics(s, 0);
    lemma_fr_opp_cancels(s);
    assert(fr_sum(t, s) == 0) by {
        // (-a + -b) + (a + b) = (-a + a) + (-b + b)
        lemma_fr_sum_assoc(fr_opp(a), fr_opp(b), s);
        lemma_fr_sum_assoc(fr_opp(b), a, b);
        lemma_fr_basics(fr_opp(b), a);
        lemma_fr_sum_assoc(a, fr_opp(b), b);
        lemma_fr_opp_cancels(b);
        lemma_fr_sum_assoc(fr_opp(a), a, 0);
        lemma_fr_opp_cancels(a);
        lemma_fr_basics(a, 0);
        lemma_fr_small(fr_sum(a, 0));
        lemma_fr_small(0);
    }
    lemma_fr_cancel_right(fr_opp(s), t, s);
}

/// A sum of scaled points of the first group, from a point of the group, is
/// one.
pub proof fn lemma_g1_lincomb_valid(init: Seq<u8>, points: Seq<Seq<u8>>, scalars: Seq<nat>, n: nat)
    requires
        group_laws(),
        is_g1(init),
        all_g1(points),
        n <= points.len(),
    ensures
        is_g1(g1_lincomb(init, points, scalars, n)),
    decreases n,
{
    if n > 0 {
        lemma_g1_lincomb_valid(init, points, scalars, (n - 1) as nat);
        law_g1_mul(points[n - 1], scalars[n - 1]);
        law_g1_sum(g1_lincomb(init, points, scalars, (n - 1) as nat), g1_mul(points[n - 1], scalars[n - 1]));
    }
}

/// A sum of scaled points of the first group at given indices, from a
/// point of the group, is one.
pub proof fn lemma_g1_lincomb_at_valid(
    init: Seq<u8>,
    points: Seq<Seq<u8>>,
    at: Seq<usize>,
    scalars: Seq<nat>,
    n: nat,
)
    requires
        group_laws(),
        is_g1(init),
        all_g1(points),
        n <= at.len(),
        forall|k: int| 0 <= k < at.len() ==> at[k] < points.len(),
    ensures
        is_g1(g1_lincomb_at(init, points, at, scalars, n)),
    decreases n,
{
    if n > 0 {
        lemma_g1_lincomb_at_valid(init, points, at, scalars, (n - 1) as nat);
        law_g1_mul(points[at[n - 1] as int], scalars[n - 1]);
        law_g1_sum(
            g1_lincomb_at(init, points, at, scalars, (n - 1) as nat),
            g1_mul(points[at[n - 1] as int], scalars[n - 1]),
        );
    }
}

/// A sum of scaled points of the second group, from a point of the group,
/// is one.
pub proof fn lemma_g2_lincomb_valid(init: Seq<u8>, points: Seq<Seq<u8>>, scalars: Seq<nat>, n: nat)
    requires
        group_laws(),
        is_g2(init),
        all_g2(points),
        n <= points.len(),
    ensures
        is_g2(g2_lincomb(init, points, scalars, n)),
    decreases n,
{
    if n > 0 {
        lemma_g2_lincomb_valid(init, points, scalars, (n - 1) as nat);
        law_g2_mul(points[n - 1], scalars[n - 1]);
        law_g2_sum(g2_lincomb(init, points, scalars, (n - 1) as nat), g2_mul(points[n - 1], scalars[n - 1]));
    }
}

/// Adding the identity, on either side, changes nothing.
pub proof fn lemma_g1_zero(p: Seq<u8>, g: Seq<u8>)
    requires
        group_laws(),
        is_g1(p),
        is_g1(g),
    ensures
        is_g1(g1_mul(g, 0)),
        g1_sum(p, g1_mul(g, 0)) == p,
        g1_sum(g1_mul(g, 0), p) == p,
{
    law_g1_mul(g, 0);
    law_g1_unit(p, g);
    law_g1_sum(p, g1_mul(g, 0));
}

/// `(a + b) + c = (a + c) + b`.
pub proof fn lemma_g1_swap_last(a: Seq<u8>, b: Seq<u8>, c: Seq<u8>)
    requires
        group_laws(),
        is_g1(a),
        is_g1(b),
        is_g1(c),
    ensures
        g1_sum(g1_sum(a, b), c) == g1_sum(g1_sum(a, c), b),
{
    law_g1_assoc(a, b, c);
    law_g1_sum(b, c);
    law_g1_assoc(a, c, b);
}

/// A sum of scaled points at given indices reads only as many indices and
/// scalars as it is asked to add.
pub proof fn lemma_g1_lincomb_at_prefix(
    init: Seq<u8>,
    points: Seq<Seq<u8>>,
    at1: Seq<usize>,
    scalars1: Seq<nat>,
    at2: Seq<usize>,
    scalars2: Seq<nat>,
    n: nat,
)
    requires
        forall|j: int| 0 <= j < n ==> at1[j] == at2[j] && scalars1[j] == scalars2[j],
    ensures
        g1_lincomb_at(init, points, at1, scalars1, n) == g1_lincomb_at(init, points, at2, scalars2, n),
    decreases n,
{
    if n > 0 {
        lemma_g1_lincomb_at_prefix(init, points, at1, scalars1, at2, scalars2, (n - 1) as nat);
    }
}

/// A sum of scaled points from a point is that point plus the sum from the
/// identity.
pub proof fn lemma_g1_lincomb_from(init: Seq<u8>, g: Seq<u8>, points: Seq<Seq<u8>>, scalars: Seq<nat>, n: nat)
    requires
        group_laws(),
        is_g1(init),
        is_g1(g),
        all_g1(points),
        n <= points.len(),
    ensures
        g1_lincomb(init, points, scalars, n) == g1_sum(init, g1_lincomb(g1_mul(g, 0), points, scalars, n)),
    decreases n,
{
    let zero = g1_mul(g, 0);
    lemma_g1_zero(init, g);
    if n > 0 {
        let before = (n - 1) as nat;
        lemma_g1_lincomb_from(init, g, points, scalars, before);
        lemma_g1_lincomb_valid(zero, points, scalars, before);
        law_g1_mul(points[n - 1], scalars[n - 1]);
        law_g1_assoc(init, g1_lincomb(zero, points, scalars, before), g1_mul(points[n - 1], scalars[n - 1]));
    }
}

/// A sum of scaled points at given indices from a point is that point plus
/// the sum from the identity.
pub proof fn lemma_g1_lincomb_at_from(
    init: Seq<u8>,
    g: Seq<u8>,
    points: Seq<Seq<u8>>,
    at: Seq<usize>,
    scalars: Seq<nat>,
    n: nat,
)
    requires
        group_laws(),
        is_g1(init),
        is_g1(g),
        all_g1(points),
        n <= at.len(),
        forall|k: int| 0 <= k < at.len() ==> at[k] < points.len(),
    ensures
        g1_lincomb_at(init, points, at, scalars, n) == g1_sum(
            init,
            g1_lincomb_at(g1_mul(g, 0), points, at, scalars, n),
        ),
    decreases n,
{
    let zero = g1_mul(g, 0);
    lemma_g1_zero(init, g);
    if n > 0 {
        let before = (n - 1) as nat;
        lemma_g1_lincomb_at_from(init, g, points, at, scalars, before);
        lemma_g1_lincomb_at_valid(zero, points, at, scalars, before);
        law_g1_mul(points[at[n - 1] as int], scalars[n - 1]);
        law_g1_assoc(
            init,
            g1_lincomb_at(zero, points, at, scalars, before),
            g1_mul(points[at[n - 1] as int], scalars[n - 1]),
        );
    }
}

/// A sum of scaled points at given indices, where each scalar is the sum of
/// two, is the sum of the two sums.
pub proof fn lemma_g1_lincomb_at_add(
    g: Seq<u8>,
    points: Seq<Seq<u8>>,
    at: Seq<usize>,
    scalars: Seq<nat>,
    left: Seq<nat>,
    right: Seq<nat>,
    n: nat,
)
    requires
        group_laws(),
        is_g1(g),
        all_g1(points),
        n <= at.len(),
        forall|k: int| 0 <= k < at.len() ==> at[k] < points.len(),
        forall|j: int| 0 <= j < n ==> scalars[j] == fr_sum(left[j], right[j]),
    ensures
        g1_lincomb_at(g1_mul(g, 0), points, at, scalars, n) == g1_sum(
            g1_lincomb_at(g1_mul(g, 0), points, at, left, n),
            g1_lincomb_at(g1_mul(g, 0), points, at, right, n),
        ),
    decreases n,
{
    let zero = g1_mul(g, 0);
    law_g1_mul(g, 0);
    lemma_g1_zero(zero, g);
    if n > 0 {
        let before = (n - 1) as nat;
        let point = points[at[n - 1] as int];
        lemma_g1_lincomb_at_add(g, points, at, scalars, left, right, before);
        lemma_g1_lincomb_at_valid(zero, points, at, left, before);
        lemma_g1_lincomb_at_valid(zero, points, at, right, before);
        law_g1_mul(point, left[n - 1]);
        law_g1_mul(point, right[n - 1]);
        law_g1_mul_add(point, left[n - 1], right[n - 1]);
        lemma_g1_swap_middle(
            g1_lincomb_at(zero, points, at, left, before),
            g1_lincomb_at(zero, points, at, right, before),
            g1_mul(point, left[n - 1]),
            g1_mul(point, right[n - 1]),
        );
    }
}

/// A sum of points at given indices, each scaled by zero, is the identity.
pub proof fn lemma_g1_lincomb_at_zero(g: Seq<u8>, points: Seq<Seq<u8>>, at: Seq<usize>, scalars: Seq<nat>, n: nat)
    requires
        group_laws(),
        is_g1(g),
        all_g1(points),
        n <= at.len(),
        forall|k: int| 0 <= k < at.len() ==> at[k] < points.len(),
        forall|j: int| 0 <= j < n ==> scalars[j] == 0,
    ensures
        g1_lincomb_at(g1_mul(g, 0), points, at, scalars, n) == g1_mul(g, 0),
    decreases n,
{
    law_g1_mul(g, 0);
    if n > 0 {
        lemma_g1_lincomb_at_zero(g, points, at, scalars, (n - 1) as nat);
        law_g1_unit(g1_mul(g, 0), points[at[n - 1] as int]);
    }
}

/// Scaling a sum of scaled points from the identity scales each scalar.
pub proof fn lemma_g1_lincomb_scale(g: Seq<u8>, points: Seq<Seq<u8>>, scalars: Seq<nat>, k: nat, n: nat)
    requires
        group_laws(),
        is_g1(g),
        all_g1(points),
        n <= points.len(),
        n <= scalars.len(),
    ensures
        g1_mul(g1_lincomb(g1_mul(g, 0), points, scalars, n), k) == g1_lincomb(
            g1_mul(g, 0),
            points,
            scaled(scalars, k),
            n,
        ),
    decreases n,
{
    reveal(fr_sum);
    reveal(fr_prod);
    reveal(fr_opp);
    reveal(fr_diff);
    let zero = g1_mul(g, 0);
    if n == 0 {
        law_g1_mul_mul(g, 0, k);
        assert(fr_prod(0, k) == 0) by {
            assert(0 * k == 0);
            lemma_small_mod(0, modulus());
        }
    } else {
        let before = (n - 1) as nat;
        lemma_g1_lincomb_scale(g, points, scalars, k, before);
        law_g1_mul(g, 0);
        lemma_g1_lincomb_valid(zero, points, scalars, before);
        law_g1_mul(points[n - 1], scalars[n - 1]);
        law_g1_add_mul(g1_lincomb(zero, points, scalars, before), g1_mul(points[n - 1], scalars[n - 1]), k);
        law_g1_mul_mul(points[n - 1], scalars[n - 1], k);
    }
}

/// A sum over all attribute positions is the sum over the disclosed
/// positions plus the sum over the hidden positions.
pub proof fn lemma_g1_partition(g: Seq<u8>, points: Seq<Seq<u8>>, weights: Seq<nat>, reveal: Seq<usize>, n: nat)
    requires
        group_laws(),
        is_g1(g),
        all_g1(points),
        n <= points.len(),
        n <= weights.len(),
        n <= usize::MAX,
        increasing_below(reveal, n),
    ensures
        g1_lincomb(g1_mul(g, 0), points, weights, n) == g1_sum(
            g1_lincomb_at(g1_mul(g, 0), points, reveal, selected(weights, reveal), reveal.len()),
            g1_lincomb_at(
                g1_mul(g, 0),
                points,
                hidden(reveal, n),
                selected(weights, hidden(reveal, n)),
                hidden(reveal, n).len(),
            ),
        ),
    decreases n,
{
    let zero = g1_mul(g, 0);
    law_g1_mul(g, 0);
    if n == 0 {
        if reveal.len() > 0 {
            assert(reveal[0] < n);
        }
        lemma_g1_zero(zero, g);
    } else {
        let last = (n - 1) as usize;
        let before = (n - 1) as nat;
        let term = g1_mul(points[n - 1], weights[n - 1]);
        law_g1_mul(points[n - 1], weights[n - 1]);
        lemma_g1_lincomb_valid(zero, points, weights, before);
        if reveal.len() > 0 && reveal.last() == last {
            let rest = reveal.drop_last();
            assert(reveal.contains(last)) by {
                assert(reveal[reveal.len() - 1] == last);
            }
            assert forall|k: usize| k < n - 1 implies (reveal.contains(k) <==> rest.contains(k)) by {
                if reveal.contains(k) {
                    let i = choose|i: int| 0 <= i < reveal.len() && reveal[i] == k;
                    assert(rest[i] == k);
                }
                if rest.contains(k) {
                    let i = choose|i: int| 0 <= i < rest.len() && rest[i] == k;
                    assert(reveal[i] == k);
                }
            }
            lemma_hidden_agree(reveal, rest, before);
            assert(increasing_below(rest, before)) by {
                assert forall|i: int| 0 <= i < rest.len() implies rest[i] < n - 1 by {
                    assert(reveal[i] < reveal[reveal.len() - 1]);
                }
            }
            lemma_g1_partition(g, points, weights, rest, before);
            let hide = hidden(rest, before);
            lemma_hidden_members(rest, before);
            assert forall|k: int| 0 <= k < hide.len() implies hide[k] < points.len() by {
                assert(hide.contains(hide[k]));
            }
            let shown_rest = g1_lincomb_at(zero, points, rest, selected(weights, rest), rest.len());
            let hidden_sum = g1_lincomb_at(zero, points, hide, selected(weights, hide), hide.len());
            lemma_g1_lincomb_at_valid(zero, points, rest, selected(weights, rest), rest.len());
            lemma_g1_lincomb_at_valid(zero, points, hide, selected(weights, hide), hide.len());
            lemma_g1_lincomb_at_prefix(
                zero,
                points,
                reveal,
                selected(weights, reveal),
                rest,
                selected(weights, rest),
                rest.len(),
            );
            lemma_g1_swap_last(shown_rest, hidden_sum, term);
        } else {
            assert(!reveal.contains(last)) by {
                if reveal.contains(last) {
                    let i = choose|i: int| 0 <= i < reveal.len() && reveal[i] == last;
                    if i < reveal.len() - 1 {
                        assert(reveal[i] < reveal[reveal.len() - 1]);
                    }
                }
            }
            assert(increasing_below(reveal, before)) by {
                assert forall|i: int| 0 <= i < reveal.len() implies reveal[i] < n - 1 by {
                    if reveal[i] == last {
                        assert(reveal.contains(last));
                    }
                }
            }
            lemma_g1_partition(g, points, weights, reveal, before);
            let hide_before = hidden(reveal, before);
            let hide = hidden(reveal, n);
            assert(hide == hide_before.push(last));
            lemma_hidden_members(reveal, before);
            assert forall|k: int| 0 <= k < hide_before.len() implies hide_before[k] < points.len() by {
                assert(hide_before.contains(hide_before[k]));
            }
            let shown_sum = g1_lincomb_at(zero, points, reveal, selected(weights, reveal), reveal.len());
            let hidden_before = g1_lincomb_at(
                zero,
                points,
                hide_before,
                selected(weights, hide_before),
                hide_before.len(),
            );
            lemma_g1_lincomb_at_valid(zero, points, reveal, selected(weights, reveal), reveal.len());
            lemma_g1_lincomb_at_valid(
                zero,
                points,
                hide_before,
                selected(weights, hide_before),
                hide_before.len(),
            );
            lemma_g1_lincomb_at_prefix(
                zero,
                points,
                hide,
                selected(weights, hide),
                hide_before,
                selected(weights, hide_before),
                hide_before.len(),
            );
            law_g1_assoc(shown_sum, hidden_before, term);
        }
    }
}

/// Adding the identity of the second group, on either side, changes
/// nothing.
pub proof fn lemma_g2_zero(p: Seq<u8>, g: Seq<u8>)
    requires
        group_laws(),
        is_g2(p),
        is_g2(g),
    ensures
        is_g2(g2_mul(g, 0)),
        g2_sum(p, g2_mul(g, 0)) == p,
        g2_sum(g2_mul(g, 0), p) == p,
{
    law_g2_mul(g, 0);
    law_g2_unit(p, g);
    law_g2_sum(p, g2_mul(g, 0));
}

/// `(a + b) + c = (a + c) + b` in the second group.
pub proof fn lemma_g2_swap_last(a: Seq<u8>, b: Seq<u8>, c: Seq<u8>)
    requires
        group_laws(),
        is_g2(a),
        is_g2(b),
        is_g2(c),
    ensures
        g2_sum(g2_sum(a, b), c) == g2_sum(g2_sum(a, c), b),
{
    law_g2_assoc(a, b, c);
    law_g2_sum(b, c);
    law_g2_assoc(a, c, b);
}

/// A point times a scalar plus the point times the additive inverse of the
/// scalar is the identity.
pub proof fn lemma_g2_cancel(p: Seq<u8>, a: nat)
    requires
        group_laws(),
        is_g2(p),
    ensures
        g2_sum(g2_mul(p, a), g2_mul(p, fr_opp(a))) == g2_mul(p, 0),
{
    law_g2_mul_add(p, a, fr_opp(a));
    lemma_fr_opp_cancels(a);
}

/// The first-commitment law in the second group:
/// `D * (alpha + c * r) + A * (beta - c * u) - (D * r - A * u) * c
/// = D * alpha + A * beta`.
pub proof fn lemma_g2_commitment_recomputed(d: Seq<u8>, a: Seq<u8>, r: nat, u: nat, alpha: nat, beta: nat, c: nat)
    requires
        group_laws(),
        is_g2(d),
        is_g2(a),
        alpha < modulus(),
        beta < modulus(),
    ensures
        g2_sum(
            g2_sum(g2_mul(d, fr_sum(alpha, fr_prod(c, r))), g2_mul(a, fr_diff(beta, fr_prod(c, u)))),
            g2_mul(g2_sum(g2_mul(d, r), g2_mul(a, fr_opp(u))), fr_opp(c)),
        ) == g2_sum(g2_mul(d, alpha), g2_mul(a, beta)),
{
    let s = fr_sum(alpha, fr_prod(c, r));
    let t = fr_diff(beta, fr_prod(c, u));
    let minus_c = fr_opp(c);
    lemma_g2_pair_scale(d, a, r, fr_opp(u), minus_c);
    lemma_g2_pair_add(d, a, s, t, fr_prod(r, minus_c), fr_prod(fr_opp(u), minus_c));
    lemma_fr_prod_opp(r, c);
    lemma_fr_basics(r, c);
    lemma_fr_add_then_remove(alpha, fr_prod(c, r));
    lemma_fr_diff_is_sum(beta, fr_prod(c, u));
    lemma_fr_prod_opp(minus_c, u);
    lemma_fr_prod_opp(u, c);
    lemma_fr_basics(u, c);
    lemma_fr_opp_opp(fr_prod(u, c));
    lemma_fr_add_then_remove(beta, fr_prod(c, u));
}

/// The binding of a randomized signature in the second group: where the
/// signature point is `P * i` and `k * y + k * u = w * r` for
/// `k = i * factor`, there `(P * i * factor) * y = (P * w) * r -
/// (P * i * factor) * u`.
pub proof fn lemma_g2_randomized_signature(p: Seq<u8>, i: nat, factor: nat, w: nat, r: nat, u: nat, y: nat)
    requires
        group_laws(),
        is_g2(p),
        fr_sum(fr_prod(fr_prod(i, factor), y), fr_prod(fr_prod(i, factor), u)) == fr_prod(w, r),
    ensures
        ({
            let a_bar = g2_mul(g2_mul(p, i), factor);
            let d = g2_mul(p, w);
            g2_mul(a_bar, y) == g2_sum(g2_mul(d, r), g2_mul(a_bar, fr_opp(u)))
        }),
{
    let k = fr_prod(i, factor);
    law_g2_mul_mul(p, i, factor);
    law_g2_mul_mul(p, k, y);
    law_g2_mul_mul(p, k, fr_opp(u));
    law_g2_mul_mul(p, w, r);
    law_g2_mul_add(p, fr_prod(w, r), fr_prod(k, fr_opp(u)));
    lemma_fr_prod_opp(k, u);
    lemma_fr_basics(k, y);
    lemma_fr_add_then_remove(fr_prod(k, y), fr_prod(k, u));
}

/// A product of a scalar, an inverse and what the inverse inverts is the
/// scalar.
pub proof fn lemma_fr_inverse_absorbed(a: nat, s: nat)
    requires
        group_laws(),
        a < modulus(),
        0 < s < modulus(),
    ensures
        fr_prod(fr_prod(a, fr_inv(s)), s) == a,
        fr_prod(fr_prod(fr_inv(s), a), s) == a,
        fr_prod(fr_inv(s), fr_prod(a, s)) == a,
        fr_prod(fr_prod(a, s), fr_inv(s)) == a,
{
    law_inverse(s);
    lemma_fr_prod_assoc(a, fr_inv(s), s);
    lemma_fr_prod_assoc(a, s, fr_inv(s));
    lemma_fr_basics(a, fr_inv(s));
    lemma_fr_basics(fr_inv(s), fr_prod(a, s));
    lemma_fr_small(a);
}

/// A sum of points of the second group, from a point of the group, is one.
pub proof fn lemma_g2_sum_all_valid(init: Seq<u8>, points: Seq<Seq<u8>>, n: nat)
    requires
        group_laws(),
        is_g2(init),
        all_g2(points),
        n <= points.len(),
    ensures
        is_g2(g2_sum_all(init, points, n)),
    decreases n,
{
    if n > 0 {
        lemma_g2_sum_all_valid(init, points, (n - 1) as nat);
        law_g2_sum(g2_sum_all(init, points, (n - 1) as nat), points[n - 1]);
    }
}

/// A sum of points from a point plus another is the sum from the point,
/// plus the other.
pub proof fn lemma_g2_sum_all_shift(init: Seq<u8>, extra: Seq<u8>, points: Seq<Seq<u8>>, n: nat)
    requires
        group_laws(),
        is_g2(init),
        is_g2(extra),
        all_g2(points),
        n <= points.len(),
    ensures
        g2_sum_all(g2_sum(init, extra), points, n) == g2_sum(g2_sum_all(init, points, n), extra),
    decreases n,
{
    if n > 0 {
        lemma_g2_sum_all_shift(init, extra, points, (n - 1) as nat);
        lemma_g2_sum_all_valid(init, points, (n - 1) as nat);
        lemma_g2_swap_last(g2_sum_all(init, points, (n - 1) as nat), extra, points[n - 1]);
    }
}

/// One more than a count, times a scalar, is the count times the scalar
/// plus the scalar.
pub proof fn lemma_fr_count_step(count: nat, b: nat)
    requires
        b < modulus(),
    ensures
        fr_prod(count + 1, b) == fr_sum(fr_prod(count, b), b),
{
    reveal(fr_sum);
    reveal(fr_prod);
    reveal(fr_opp);
    reveal(fr_diff);
    let p = modulus() as int;
    assert((count + 1) * b == count * b + b) by (nonlinear_arith);
    lemma_add_mod_noop((count * b) as int, b as int, p);
    lemma_small_mod(b, modulus());
    lemma_mod_bound((count * b) as int, p);
    lemma_small_mod(((count * b) as int % p) as nat, modulus());
}

/// Scaling by a scalar and then by its inverse changes nothing.
pub proof fn lemma_g2_inverse_scaling(p: Seq<u8>, a: nat)
    requires
        group_laws(),
        is_g2(p),
        0 < a < modulus(),
    ensures
        g2_mul(g2_mul(p, a), fr_inv(a)) == p,
        g2_mul(g2_mul(p, fr_inv(a)), a) == p,
{
    law_inverse(a);
    law_g2_mul_mul(p, a, fr_inv(a));
    law_g2_mul_mul(p, fr_inv(a), a);
    law_g2_unit(p, p);
}

/// The additive inverse of the additive inverse of a value below the
/// modulus is the value.
pub proof fn lemma_fr_opp_opp(a: nat)
    requires
        a < modulus(),
    ensures
        fr_opp(fr_opp(a)) == a,
{
    lemma_fr_opp_cancels(a);
    lemma_fr_opp_cancels(fr_opp(a));
    lemma_fr_basics(fr_opp(a), 0);
    lemma_fr_basics(fr_opp(fr_opp(a)), 0);
    lemma_fr_cancel_right(fr_opp(fr_opp(a)), a, fr_opp(a));
}

/// Adding and then taking away again gives the value one started from.
pub proof fn lemma_fr_add_then_remove(a: nat, x: nat)
    requires
        a < modulus(),
    ensures
        fr_sum(fr_sum(a, x), fr_opp(x)) == a,
        fr_sum(fr_sum(a, fr_opp(x)), x) == a,
{
    lemma_fr_sum_assoc(a, x, fr_opp(x));
    lemma_fr_sum_assoc(a, fr_opp(x), x);
    lemma_fr_opp_cancels(x);
    lemma_fr_small(a);
}

/// `(p * a1 + q * b1) + (p * a2 + q * b2) = p * (a1 + a2) + q * (b1 + b2)`.
pub proof fn lemma_g1_pair_add(p: Seq<u8>, q: Seq<u8>, a1: nat, b1: nat, a2: nat, b2: nat)
    requires
        group_laws(),
        is_g1(p),
        is_g1(q),
    ensures
        g1_sum(g1_sum(g1_mul(p, a1), g1_mul(q, b1)), g1_sum(g1_mul(p, a2), g1_mul(q, b2))) == g1_sum(
            g1_mul(p, fr_sum(a1, a2)),
            g1_mul(q, fr_sum(b1, b2)),
        ),
{
    law_g1_mul(p, a1);
    law_g1_mul(q, b1);
    law_g1_mul(p, a2);
    law_g1_mul(q, b2);
    lemma_g1_swap_middle(g1_mul(p, a1), g1_mul(q, b1), g1_mul(p, a2), g1_mul(q, b2));
    law_g1_mul_add(p, a1, a2);
    law_g1_mul_add(q, b1, b2);
}

/// `(p * a + q * b) * k = p * (a * k) + q * (b * k)`.
pub proof fn lemma_g1_pair_scale(p: Seq<u8>, q: Seq<u8>, a: nat, b: nat, k: nat)
    requires
        group_laws(),
        is_g1(p),
        is_g1(q),
    ensures
        g1_mul(g1_sum(g1_mul(p, a), g1_mul(q, b)), k) == g1_sum(
            g1_mul(p, fr_prod(a, k)),
            g1_mul(q, fr_prod(b, k)),
        ),
{
    law_g1_mul(p, a);
    law_g1_mul(q, b);
    law_g1_add_mul(g1_mul(p, a), g1_mul(q, b), k);
    law_g1_mul_mul(p, a, k);
    law_g1_mul_mul(q, b, k);
}

/// `(a + b) + (c + d) = (a + c) + (b + d)`.
pub proof fn lemma_g1_swap_middle(a: Seq<u8>, b: Seq<u8>, c: Seq<u8>, d: Seq<u8>)
    requires
        group_laws(),
        is_g1(a),
        is_g1(b),
        is_g1(c),
        is_g1(d),
    ensures
        g1_sum(g1_sum(a, b), g1_sum(c, d)) == g1_sum(g1_sum(a, c), g1_sum(b, d)),
{
    law_g1_sum(c, d);
    law_g1_sum(b, d);
    law_g1_sum(b, c);
    law_g1_sum(g1_sum(b, c), d);
    // (a + b) + (c + d) = a + (b + (c + d)) = a + ((b + c) + d)
    law_g1_assoc(a, b, g1_sum(c, d));
    law_g1_assoc(b, c, d);
    // = a + ((c + b) + d) = a + (c + (b + d)) = (a + c) + (b + d)
    law_g1_assoc(c, b, d);
    law_g1_assoc(a, c, g1_sum(b, d));
}

/// `(p * a + q * b) + (p * a2 + q * b2)` in the second group.
pub proof fn lemma_g2_pair_add(p: Seq<u8>, q: Seq<u8>, a1: nat, b1: nat, a2: nat, b2: nat)
    requires
        group_laws(),
        is_g2(p),
        is_g2(q),
    ensures
        g2_sum(g2_sum(g2_mul(p, a1), g2_mul(q, b1)), g2_sum(g2_mul(p, a2), g2_mul(q, b2))) == g2_sum(
            g2_mul(p, fr_sum(a1, a2)),
            g2_mul(q, fr_sum(b1, b2)),
        ),
{
    law_g2_mul(p, a1);
    law_g2_mul(q, b1);
    law_g2_mul(p, a2);
    law_g2_mul(q, b2);
    lemma_g2_swap_middle(g2_mul(p, a1), g2_mul(q, b1), g2_mul(p, a2), g2_mul(q, b2));
    law_g2_mul_add(p, a1, a2);
    law_g2_mul_add(q, b1, b2);
}

/// `(p * a + q * b) * k = p * (a * k) + q * (b * k)` in the second group.
pub proof fn lemma_g2_pair_scale(p: Seq<u8>, q: Seq<u8>, a: nat, b: nat, k: nat)
    requires
        group_laws(),
        is_g2(p),
        is_g2(q),
    ensures
        g2_mul(g2_sum(g2_mul(p, a), g2_mul(q, b)), k) == g2_sum(
            g2_mul(p, fr_prod(a, k)),
            g2_mul(q, fr_prod(b, k)),
        ),
{
    law_g2_mul(p, a);
    law_g2_mul(q, b);
    law_g2_add_mul(g2_mul(p, a), g2_mul(q, b), k);
    law_g2_mul_mul(p, a, k);
    law_g2_mul_mul(q, b, k);
}

/// `(a + b) + (c + d) = (a + c) + (b + d)` in the second group.
pub proof fn lemma_g2_swap_middle(a: Seq<u8>, b: Seq<u8>, c: Seq<u8>, d: Seq<u8>)
    requires
        group_laws(),
        is_g2(a),
        is_g2(b),
        is_g2(c),
        is_g2(d),
    ensures
        g2_sum(g2_sum(a, b), g2_sum(c, d)) == g2_sum(g2_sum(a, c), g2_sum(b, d)),
{
    law_g2_sum(c, d);
    law_g2_sum(b, d);
    law_g2_sum(b, c);
    law_g2_sum(g2_sum(b, c), d);
    law_g2_assoc(a, b, g2_sum(c, d));
    law_g2_assoc(b, c, d);
    law_g2_assoc(c, b, d);
    law_g2_assoc(a, c, g2_sum(b, d));
}

/// A sum of scaled points of the second group at given indices, from a
/// point of the group, is one.
pub proof fn lemma_g2_lincomb_at_valid(
    init: Seq<u8>,
    points: Seq<Seq<u8>>,
    at: Seq<usize>,
    scalars: Seq<nat>,
    n: nat,
)
    requires
        group_laws(),
        is_g2(init),
        all_g2(points),
        n <= at.len(),
        forall|k: int| 0 <= k < at.len() ==> at[k] < points.len(),
    ensures
        is_g2(g2_lincomb_at(init, points, at, scalars, n)),
    decreases n,
{
    if n > 0 {
        lemma_g2_lincomb_at_valid(init, points, at, scalars, (n - 1) as nat);
        law_g2_mul(points[at[n - 1] as int], scalars[n - 1]);
        law_g2_sum(
            g2_lincomb_at(init, points, at, scalars, (n - 1) as nat),
            g2_mul(points[at[n - 1] as int], scalars[n - 1]),
        );
    }
}

/// A sum of scaled points at given indices reads only as many indices and
/// scalars as it is asked to add.
pub proof fn lemma_g2_lincomb_at_prefix(
    init: Seq<u8>,
    points: Seq<Seq<u8>>,
    at1: Seq<usize>,
    scalars1: Seq<nat>,
    at2: Seq<usize>,
    scalars2: Seq<nat>,
    n: nat,
)
    requires
        forall|j: int| 0 <= j < n ==> at1[j] == at2[j] && scalars1[j] == scalars2[j],
    ensures
        g2_lincomb_at(init, points, at1, scalars1, n) == g2_lincomb_at(init, points, at2, scalars2, n),
    decreases n,
{
    if n > 0 {
        lemma_g2_lincomb_at_prefix(init, points, at1, scalars1, at2, scalars2, (n - 1) as nat);
    }
}

/// A sum of scaled points from a point is that point plus the sum from the
/// identity.
pub proof fn lemma_g2_lincomb_from(init: Seq<u8>, g: Seq<u8>, points: Seq<Seq<u8>>, scalars: Seq<nat>, n: nat)
    requires
        group_laws(),
        is_g2(init),
        is_g2(g),
        all_g2(points),
        n <= points.len(),
    ensures
        g2_lincomb(init, points, scalars, n) == g2_sum(init, g2_lincomb(g2_mul(g, 0), points, scalars, n)),
    decreases n,
{
    let zero = g2_mul(g, 0);
    lemma_g2_zero(init, g);
    if n > 0 {
        let before = (n - 1) as nat;
        lemma_g2_lincomb_from(init, g, points, scalars, before);
        lemma_g2_lincomb_valid(zero, points, scalars, before);
        law_g2_mul(points[n - 1], scalars[n - 1]);
        law_g2_assoc(init, g2_lincomb(zero, points, scalars, before), g2_mul(points[n - 1], scalars[n - 1]));
    }
}

/// A sum of scaled points at given indices from a point is that point plus
/// the sum from the identity.
pub proof fn lemma_g2_lincomb_at_from(
    init: Seq<u8>,
    g: Seq<u8>,
    points: Seq<Seq<u8>>,
    at: Seq<usize>,
    scalars: Seq<nat>,
    n: nat,
)
    requires
        group_laws(),
        is_g2(init),
        is_g2(g),
        all_g2(points),
        n <= at.len(),
        forall|k: int| 0 <= k < at.len() ==> at[k] < points.len(),
    ensures
        g2_lincomb_at(init, points, at, scalars, n) == g2_sum(
            init,
            g2_lincomb_at(g2_mul(g, 0), points, at, scalars, n),
        ),
    decreases n,
{
    let zero = g2_mul(g, 0);
    lemma_g2_zero(init, g);
    if n > 0 {
        let before = (n - 1) as nat;
        lemma_g2_lincomb_at_from(init, g, points, at, scalars, before);
        lemma_g2_lincomb_at_valid(zero, points, at, scalars, before);
        law_g2_mul(points[at[n - 1] as int], scalars[n - 1]);
        law_g2_assoc(
            init,
            g2_lincomb_at(zero, points, at, scalars, before),
            g2_mul(points[at[n - 1] as int], scalars[n - 1]),
        );
    }
}

/// A sum of scaled points at given indices, where each scalar is the sum of
/// two, is the sum of the two sums.
pub proof fn lemma_g2_lincomb_at_add(
    g: Seq<u8>,
    points: Seq<Seq<u8>>,
    at: Seq<usize>,
    scalars: Seq<nat>,
    left: Seq<nat>,
    right: Seq<nat>,
    n: nat,
)
    requires
        group_laws(),
        is_g2(g),
        all_g2(points),
        n <= at.len(),
        forall|k: int| 0 <= k < at.len() ==> at[k] < points.len(),
        forall|j: int| 0 <= j < n ==> scalars[j] == fr_sum(left[j], right[j]),
    ensures
        g2_lincomb_at(g2_mul(g, 0), points, at, scalars, n) == g2_sum(
            g2_lincomb_at(g2_mul(g, 0), points, at, left, n),
            g2_lincomb_at(g2_mul(g, 0), points, at, right, n),
        ),
    decreases n,
{
    let zero = g2_mul(g, 0);
    law_g2_mul(g, 0);
    lemma_g2_zero(zero, g);
    if n > 0 {
        let before = (n - 1) as nat;
        let point = points[at[n - 1] as int];
        lemma_g2_lincomb_at_add(g, points, at, scalars, left, right, before);
        lemma_g2_lincomb_at_valid(zero, points, at, left, before);
        lemma_g2_lincomb_at_valid(zero, points, at, right, before);
        law_g2_mul(point, left[n - 1]);
        law_g2_mul(point, right[n - 1]);
        law_g2_mul_add(point, left[n - 1], right[n - 1]);
        lemma_g2_swap_middle(
            g2_lincomb_at(zero, points, at, left, before),
            g2_lincomb_at(zero, points, at, right, before),
            g2_mul(point, left[n - 1]),
            g2_mul(point, right[n - 1]),
        );
    }
}

/// A sum of points at given indices, each scaled by zero, is the identity.
pub proof fn lemma_g2_lincomb_at_zero(g: Seq<u8>, points: Seq<Seq<u8>>, at: Seq<usize>, scalars: Seq<nat>, n: nat)
    requires
        group_laws(),
        is_g2(g),
        all_g2(points),
        n <= at.len(),
        forall|k: int| 0 <= k < at.len() ==> at[k] < points.len(),
        forall|j: int| 0 <= j < n ==> scalars[j] == 0,
    ensures
        g2_lincomb_at(g2_mul(g, 0), points, at, scalars, n) == g2_mul(g, 0),
    decreases n,
{
    law_g2_mul(g, 0);
    if n > 0 {
        lemma_g2_lincomb_at_zero(g, points, at, scalars, (n - 1) as nat);
        law_g2_unit(g2_mul(g, 0), points[at[n - 1] as int]);
    }
}

/// Scaling a sum of scaled points from the identity scales each scalar.
pub proof fn lemma_g2_lincomb_scale(g: Seq<u8>, points: Seq<Seq<u8>>, scalars: Seq<nat>, k: nat, n: nat)
    requires
        group_laws(),
        is_g2(g),
        all_g2(points),
        n <= points.len(),
        n <= scalars.len(),
    ensures
        g2_mul(g2_lincomb(g2_mul(g, 0), points, scalars, n), k) == g2_lincomb(
            g2_mul(g, 0),
            points,
            scaled(scalars, k),
            n,
        ),
    decreases n,
{
    reveal(fr_sum);
    reveal(fr_prod);
    reveal(fr_opp);
    reveal(fr_diff);
    let zero = g2_mul(g, 0);
    if n == 0 {
        law_g2_mul_mul(g, 0, k);
        assert(fr_prod(0, k) == 0) by {
            assert(0 * k == 0);
            lemma_small_mod(0, modulus());
        }
    } else {
        let before = (n - 1) as nat;
        lemma_g2_lincomb_scale(g, points, scalars, k, before);
        law_g2_mul(g, 0);
        lemma_g2_lincomb_valid(zero, points, scalars, before);
        law_g2_mul(points[n - 1], scalars[n - 1]);
        law_g2_add_mul(g2_lincomb(zero, points, scalars, before), g2_mul(points[n - 1], scalars[n - 1]), k);
        law_g2_mul_mul(points[n - 1], scalars[n - 1], k);
    }
}

/// A sum over all attribute positions is the sum over the disclosed
/// positions plus the sum over the hidden positions.
pub proof fn lemma_g2_partition(g: Seq<u8>, points: Seq<Seq<u8>>, weights: Seq<nat>, reveal: Seq<usize>, n: nat)
    requires
        group_laws(),
        is_g2(g),
        all_g2(points),
        n <= points.len(),
        n <= weights.len(),
        n <= usize::MAX,
        increasing_below(reveal, n),
    ensures
        g2_lincomb(g2_mul(g, 0), points, weights, n) == g2_sum(
            g2_lincomb_at(g2_mul(g, 0), points, reveal, selected(weights, reveal), reveal.len()),
            g2_lincomb_at(
                g2_mul(g, 0),
                points,
                hidden(reveal, n),
                selected(weights, hidden(reveal, n)),
                hidden(reveal, n).len(),
            ),
        ),
    decreases n,
{
    let zero = g2_mul(g, 0);
    law_g2_mul(g, 0);
    if n == 0 {
        if reveal.len() > 0 {
            assert(reveal[0] < n);
        }
        lemma_g2_zero(zero, g);
    } else {
        let last = (n - 1) as usize;
        let before = (n - 1) as nat;
        let term = g2_mul(points[n - 1], weights[n - 1]);
        law_g2_mul(points[n - 1], weights[n - 1]);
        lemma_g2_lincomb_valid(zero, points, weights, before);
        if reveal.len() > 0 && reveal.last() == last {
            let rest = reveal.drop_last();
            assert(reveal.contains(last)) by {
                assert(reveal[reveal.len() - 1] == last);
            }
            assert forall|k: usize| k < n - 1 implies (reveal.contains(k) <==> rest.contains(k)) by {
                if reveal.contains(k) {
                    let i = choose|i: int| 0 <= i < reveal.len() && reveal[i] == k;
                    assert(rest[i] == k);
                }
                if rest.contains(k) {
                    let i = choose|i: int| 0 <= i < rest.len() && rest[i] == k;
                    assert(reveal[i] == k);
                }
            }
            lemma_hidden_agree(reveal, rest, before);
            assert(increasing_below(rest, before)) by {
                assert forall|i: int| 0 <= i < rest.len() implies rest[i] < n - 1 by {
                    assert(reveal[i] < reveal[reveal.len() - 1]);
                }
            }
            lemma_g2_partition(g, points, weights, rest, before);
            let hide = hidden(rest, before);
            lemma_hidden_members(rest, before);
            assert forall|k: int| 0 <= k < hide.len() implies hide[k] < points.len() by {
                assert(hide.contains(hide[k]));
            }
            let shown_rest = g2_lincomb_at(zero, points, rest, selected(weights, rest), rest.len());
            let hidden_sum = g2_lincomb_at(zero, points, hide, selected(weights, hide), hide.len());
            lemma_g2_lincomb_at_valid(zero, points, rest, selected(weights, rest), rest.len());
            lemma_g2_lincomb_at_valid(zero, points, hide, selected(weights, hide), hide.len());
            lemma_g2_lincomb_at_prefix(
                zero,
                points,
                reveal,
                selected(weights, reveal),
                rest,
                selected(weights, rest),
                rest.len(),
            );
            lemma_g2_swap_last(shown_rest, hidden_sum, term);
        } else {
            assert(!reveal.contains(last)) by {
                if reveal.contains(last) {
                    let i = choose|i: int| 0 <= i < reveal.len() && reveal[i] == last;
                    if i < reveal.len() - 1 {
                        assert(reveal[i] < reveal[reveal.len() - 1]);
                    }
                }
            }
            assert(increasing_below(reveal, before)) by {
                assert forall|i: int| 0 <= i < reveal.len() implies reveal[i] < n - 1 by {
                    if reveal[i] == last {
                        assert(reveal.contains(last));
                    }
                }
            }
            lemma_g2_partition(g, points, weights, reveal, before);
            let hide_before = hidden(reveal, before);
            let hide = hidden(reveal, n);
            assert(hide == hide_before.push(last));
            lemma_hidden_members(reveal, before);
            assert forall|k: int| 0 <= k < hide_before.len() implies hide_before[k] < points.len() by {
                assert(hide_before.contains(hide_before[k]));
            }
            let shown_sum = g2_lincomb_at(zero, points, reveal, selected(weights, reveal), reveal.len());
            let hidden_before = g2_lincomb_at(
                zero,
                points,
                hide_before,
                selected(weights, hide_before),
                hide_before.len(),
            );
            lemma_g2_lincomb_at_valid(zero, points, reveal, selected(weights, reveal), reveal.len());
            lemma_g2_lincomb_at_valid(
                zero,
                points,
                hide_before,
                selected(weights, hide_before),
                hide_before.len(),
            );
            lemma_g2_lincomb_at_prefix(
                zero,
                points,
                hide,
                selected(weights, hide),
                hide_before,
                selected(weights, hide_before),
                hide_before.len(),
            );
            law_g2_assoc(shown_sum, hidden_before, term);
        }
    }
}

/// Scaling a sum of scaled points at given indices from the identity scales
/// each scalar.
pub proof fn lemma_g2_lincomb_at_scale(
    g: Seq<u8>,
    points: Seq<Seq<u8>>,
    at: Seq<usize>,
    scalars: Seq<nat>,
    k: nat,
    n: nat,
)
    requires
        group_laws(),
        is_g2(g),
        all_g2(points),
        n <= at.len(),
        n <= scalars.len(),
        forall|i: int| 0 <= i < at.len() ==> at[i] < points.len(),
    ensures
        g2_mul(g2_lincomb_at(g2_mul(g, 0), points, at, scalars, n), k) == g2_lincomb_at(
            g2_mul(g, 0),
            points,
            at,
            scaled(scalars, k),
            n,
        ),
    decreases n,
{
    let zero = g2_mul(g, 0);
    if n == 0 {
        reveal(fr_prod);
        law_g2_mul_mul(g, 0, k);
        assert(fr_prod(0, k) == 0) by {
            assert(0 * k == 0);
            lemma_small_mod(0, modulus());
        }
    } else {
        let before = (n - 1) as nat;
        let point = points[at[n - 1] as int];
        lemma_g2_lincomb_at_scale(g, points, at, scalars, k, before);
        law_g2_mul(g, 0);
        lemma_g2_lincomb_at_valid(zero, points, at, scalars, before);
        law_g2_mul(point, scalars[n - 1]);
        law_g2_add_mul(g2_lincomb_at(zero, points, at, scalars, before), g2_mul(point, scalars[n - 1]), k);
        law_g2_mul_mul(point, scalars[n - 1], k);
    }
}

/// A weighted sum of points of the second group, scaled, is the weighted
/// sum of the scaled points.
pub proof fn lemma_g2_lincomb_points_scaled(
    g: Seq<u8>,
    points: Seq<Seq<u8>>,
    moved: Seq<Seq<u8>>,
    scalars: Seq<nat>,
    k: nat,
    n: nat,
)
    requires
        group_laws(),
        is_g2(g),
        all_g2(points),
        n <= points.len(),
        n <= moved.len(),
        forall|i: int| 0 <= i < n ==> moved[i] == g2_mul(#[trigger] points[i], k),
    ensures
        g2_mul(g2_lincomb(g2_mul(g, 0), points, scalars, n), k) == g2_lincomb(g2_mul(g, 0), moved, scalars, n),
    decreases n,
{
    let zero = g2_mul(g, 0);
    if n == 0 {
        law_g2_mul_mul(g, 0, k);
        assert(fr_prod(0, k) == 0) by {
            reveal(fr_prod);
            assert(0 * k == 0);
        }
    } else {
        let before = (n - 1) as nat;
        let point = points[n - 1];
        lemma_g2_lincomb_points_scaled(g, points, moved, scalars, k, before);
        law_g2_mul(g, 0);
        lemma_g2_lincomb_valid(zero, points, scalars, before);
        law_g2_mul(point, scalars[n - 1]);
        law_g2_add_mul(g2_lincomb(zero, points, scalars, before), g2_mul(point, scalars[n - 1]), k);
        law_g2_mul_mul(point, scalars[n - 1], k);
        law_g2_mul_mul(point, k, scalars[n - 1]);
        lemma_fr_basics(k, scalars[n - 1]);
    }
}

/// Two weighted sums of points of the second group with the same weights
/// add up to the weighted sum of the points added one by one.
pub proof fn lemma_g2_lincomb_points_added(
    g: Seq<u8>,
    left: Seq<Seq<u8>>,
    right: Seq<Seq<u8>>,
    both: Seq<Seq<u8>>,
    scalars: Seq<nat>,
    n: nat,
)
    requires
        group_laws(),
        is_g2(g),
        all_g2(left),
        all_g2(right),
        n <= left.len(),
        n <= right.len(),
        n <= both.len(),
        forall|i: int| 0 <= i < n ==> #[trigger] both[i] == g2_sum(left[i], right[i]),
    ensures
        g2_sum(g2_lincomb(g2_mul(g, 0), left, scalars, n), g2_lincomb(g2_mul(g, 0), right, scalars, n))
            == g2_lincomb(g2_mul(g, 0), both, scalars, n),
    decreases n,
{
    let zero = g2_mul(g, 0);
    law_g2_mul(g, 0);
    if n == 0 {
        lemma_g2_zero(zero, g);
    } else {
        let before = (n - 1) as nat;
        let a = scalars[n - 1];
        lemma_g2_lincomb_points_added(g, left, right, both, scalars, before);
        lemma_g2_lincomb_valid(zero, left, scalars, before);
        lemma_g2_lincomb_valid(zero, right, scalars, before);
        law_g2_mul(left[n - 1], a);
        law_g2_mul(right[n - 1], a);
        lemma_g2_swap_middle(
            g2_lincomb(zero, left, scalars, before),
            g2_mul(left[n - 1], a),
            g2_lincomb(zero, right, scalars, before),
            g2_mul(right[n - 1], a),
        );
        law_g2_add_mul(left[n - 1], right[n - 1], a);
        assert(both[n - 1] == g2_sum(left[n - 1], right[n - 1]));
    }
}

/// In a sum of six points of the second group, two pairs that cancel leave
/// the other two.
pub proof fn lemma_g2_two_pairs_cancel(
    p: Seq<u8>,
    q: Seq<u8>,
    r: Seq<u8>,
    p_back: Seq<u8>,
    r_back: Seq<u8>,
    e: Seq<u8>,
    g: Seq<u8>,
)
    requires
        group_laws(),
        is_g2(p) && is_g2(q) && is_g2(r) && is_g2(p_back) && is_g2(r_back) && is_g2(e) && is_g2(g),
        g2_sum(p, p_back) == g2_mul(g, 0),
        g2_sum(r, r_back) == g2_mul(g, 0),
    ensures
        g2_sum(g2_sum(g2_sum(p, q), r), g2_sum(p_back, g2_sum(r_back, e))) == g2_sum(q, e),
{
    law_g2_sum(p, q);
    law_g2_sum(r_back, e);
    lemma_g2_swap_middle(g2_sum(p, q), r, p_back, g2_sum(r_back, e));
    lemma_g2_swap_last(p, q, p_back);
    lemma_g2_zero(q, g);
    law_g2_assoc(r, r_back, e);
    lemma_g2_zero(e, g);
}

/// A point added on the right of two sums of the first group can be taken
/// away.
pub proof fn lemma_g1_cancel_right(a: Seq<u8>, b: Seq<u8>, x: Seq<u8>)
    requires
        group_laws(),
        is_g1(a),
        is_g1(b),
        is_g1(x),
        g1_sum(a, x) == g1_sum(b, x),
    ensures
        a == b,
{
    let back = g1_mul(x, fr_opp(1));
    law_g1_mul(x, fr_opp(1));
    law_g1_unit(x, x);
    law_g1_mul_add(x, 1, fr_opp(1));
    lemma_fr_opp_cancels(1);
    law_g1_assoc(a, x, back);
    law_g1_assoc(b, x, back);
    law_g1_unit(a, x);
    law_g1_unit(b, x);
}

/// A point of the first group that is not the identity has different
/// multiples for different scalars.
pub proof fn lemma_g1_mul_injective(p: Seq<u8>, a: nat, b: nat)
    requires
        group_laws(),
        is_g1(p),
        !g1_is_identity(p),
        a < modulus(),
        b < modulus(),
        g1_mul(p, a) == g1_mul(p, b),
    ensures
        a == b,
{
    let gap = fr_sum(a, fr_opp(b));
    law_g1_mul_add(p, a, fr_opp(b));
    law_g1_mul_add(p, b, fr_opp(b));
    lemma_fr_opp_cancels(b);
    law_g1_identity(p, 0);
    lemma_fr_basics(a, fr_opp(b));
    law_g1_identity(p, gap);
    assert(gap == 0);
    lemma_fr_sum_assoc(a, fr_opp(b), b);
    lemma_fr_small(a);
    lemma_fr_small(b);
}

/// A sum of ten points of the second group in which four pairs cancel is
/// the sum of the two that are left.
pub proof fn lemma_g2_four_pairs_cancel(
    a1: Seq<u8>,
    a2: Seq<u8>,
    a3: Seq<u8>,
    a4: Seq<u8>,
    b1: Seq<u8>,
    b2: Seq<u8>,
    c1: Seq<u8>,
    c2: Seq<u8>,
    c3: Seq<u8>,
    c4: Seq<u8>,
    q1: Seq<u8>,
    q2: Seq<u8>,
    q3: Seq<u8>,
    q4: Seq<u8>,
)
    requires
        group_laws(),
        is_g2(a1) && is_g2(a2) && is_g2(a3) && is_g2(a4) && is_g2(b1) && is_g2(b2),
        is_g2(c1) && is_g2(c2) && is_g2(c3) && is_g2(c4),
        is_g2(q1) && is_g2(q2) && is_g2(q3) && is_g2(q4),
        g2_sum(a1, b1) == g2_mul(q1, 0),
        g2_sum(a2, b2) == g2_mul(q2, 0),
        g2_sum(a3, c4) == g2_mul(q3, 0),
        g2_sum(a4, c2) == g2_mul(q4, 0),
    ensures
        g2_sum(
            g2_sum(g2_sum(g2_sum(a1, g2_sum(a2, a3)), a4), g2_sum(b1, b2)),
            g2_sum(g2_sum(c1, c2), g2_sum(c3, c4)),
        ) == g2_sum(c1, c3),
{
    let a23 = g2_sum(a2, a3);
    let a34 = g2_sum(a3, a4);
    let c13 = g2_sum(c1, c3);
    law_g2_sum(a2, a3);
    law_g2_sum(a3, a4);
    law_g2_sum(a1, a23);
    law_g2_sum(a4, b2);
    law_g2_sum(c1, c3);
    law_g2_sum(c2, c4);
    law_g2_sum(c4, a3);
    law_g2_sum(c2, a4);
    // ((a1 + a23) + a4) + (b1 + b2) = a23 + (a4 + b2)
    lemma_g2_swap_middle(g2_sum(a1, a23), a4, b1, b2);
    lemma_g2_swap_last(a1, a23, b1);
    lemma_g2_zero(a23, q1);
    // (a2 + a3) + (b2 + a4) = a3 + a4
    lemma_g2_swap_middle(a2, a3, b2, a4);
    lemma_g2_zero(a34, q2);
    assert(g2_sum(g2_sum(g2_sum(a1, a23), a4), g2_sum(b1, b2)) == a34);
    // (c1 + c2) + (c3 + c4) = (c1 + c3) + (c2 + c4)
    lemma_g2_swap_middle(c1, c2, c3, c4);
    // (a3 + a4) + (c13 + (c2 + c4)) = c13 + ((c2 + c4) + (a4 + a3)) = c13
    law_g2_sum(c13, g2_sum(c2, c4));
    law_g2_sum(a34, g2_sum(c13, g2_sum(c2, c4)));
    law_g2_assoc(c13, g2_sum(c2, c4), a34);
    law_g2_sum(a4, a3);
    lemma_g2_swap_middle(c2, c4, a4, a3);
    law_g2_mul(q4, 0);
    lemma_g2_zero(g2_mul(q4, 0), q3);
    lemma_g2_zero(c13, q4);
}

/// The inverse of a non-zero scalar is not zero, and the product of two
/// non-zero scalars is not zero.
pub proof fn lemma_fr_units(a: nat, b: nat)
    requires
        group_laws(),
        0 < a < modulus(),
        0 < b < modulus(),
    ensures
        0 < fr_inv(a) < modulus(),
        0 < fr_prod(a, b) < modulus(),
{
    reveal(fr_sum);
    reveal(fr_prod);
    reveal(fr_opp);
    reveal(fr_diff);
    law_inverse(a);
    law_inverse(b);
    lemma_fr_basics(a, b);
    assert(fr_inv(a) != 0) by {
        if fr_inv(a) == 0 {
            assert(a * 0 == 0);
            lemma_small_mod(0, modulus());
        }
    }
    assert(fr_prod(a, b) != 0) by {
        if fr_prod(a, b) == 0 {
            lemma_fr_prod_assoc(a, b, fr_inv(b));
            lemma_fr_small(a);
            assert(0 * fr_inv(b) == 0);
            lemma_small_mod(0, modulus());
        }
    }
}

/// Selecting and then taking values is taking values and then selecting.
pub proof fn lemma_values_selected(scalars: Seq<crate::scalar::Scalar>, indices: Seq<usize>)
    requires
        forall|k: int| 0 <= k < indices.len() ==> indices[k] < scalars.len(),
    ensures
        crate::linear::values(selected(scalars, indices)) == selected(crate::linear::values(scalars), indices),
{
    assert(crate::linear::values(selected(scalars, indices)) =~= selected(
        crate::linear::values(scalars),
        indices,
    ));
}

/// Sums and products in the scalar field are below the modulus and do not
/// depend on the order.
pub proof fn lemma_fr_basics(a: nat, b: nat)
    ensures
        fr_sum(a, b) < modulus(),
        fr_prod(a, b) < modulus(),
        fr_opp(a) < modulus(),
        fr_diff(a, b) < modulus(),
        fr_sum(a, b) == fr_sum(b, a),
        fr_prod(a, b) == fr_prod(b, a),
{
    reveal(fr_sum);
    reveal(fr_prod);
    reveal(fr_opp);
    reveal(fr_diff);
    let p = modulus() as int;
    lemma_mod_bound((a + b) as int, p);
    lemma_mod_bound((a * b) as int, p);
    lemma_mod_bound(b as int, p);
    lemma_mod_bound(a as int, p);
    lemma_mod_bound(p - (a as int) % p, p);
    lemma_mod_bound(a + p - (b as int) % p, p);
    assert(a * b == b * a) by (nonlinear_arith);
}

/// A value below the modulus is the remainder of itself.
pub proof fn lemma_fr_small(a: nat)
    requires
        a < modulus(),
    ensures
        fr_sum(a, 0) == a,
        fr_sum(0, a) == a,
        fr_prod(a, 1) == a,
        fr_prod(1, a) == a,
{
    reveal(fr_sum);
    reveal(fr_prod);
    reveal(fr_opp);
    reveal(fr_diff);
    lemma_small_mod(a, modulus());
    assert(a * 1 == a && 1 * a == a);
}

/// Adding in the scalar field may be regrouped.
pub proof fn lemma_fr_sum_assoc(a: nat, b: nat, c: nat)
    ensures
        fr_sum(fr_sum(a, b), c) == fr_sum(a, fr_sum(b, c)),
{
    reveal(fr_sum);
    reveal(fr_prod);
    reveal(fr_opp);
    reveal(fr_diff);
    let p = modulus() as int;
    lemma_add_mod_noop((a + b) as int, c as int, p);
    lemma_add_mod_noop(a as int, (b + c) as int, p);
    lemma_mod_bound((a + b) as int, p);
    lemma_mod_bound((b + c) as int, p);
    lemma_small_mod(((a + b) as int % p) as nat, p as nat);
    lemma_small_mod(((b + c) as int % p) as nat, p as nat);
    // ((a+b)%p + c) % p == ((a+b)%p %p + c%p) % p == ((a+b) %p + c % p) % p == (a+b+c) % p
    lemma_add_mod_noop((a + b) as int % p, c as int, p);
    lemma_add_mod_noop(a as int, (b + c) as int % p, p);
    assert((a + b) + c == a + (b + c));
}

/// Multiplying in the scalar field may be regrouped.
pub proof fn lemma_fr_prod_assoc(a: nat, b: nat, c: nat)
    ensures
        fr_prod(fr_prod(a, b), c) == fr_prod(a, fr_prod(b, c)),
{
    reveal(fr_sum);
    reveal(fr_prod);
    reveal(fr_opp);
    reveal(fr_diff);
    let p = modulus() as int;
    lemma_mul_mod_noop_general((a * b) as int, c as int, p);
    lemma_mul_mod_noop_general(a as int, (b * c) as int, p);
    assert((a * b) * c == a * (b * c)) by (nonlinear_arith);
}

/// A value plus its additive inverse is zero.
pub proof fn lemma_fr_opp_cancels(a: nat)
    ensures
        fr_sum(a, fr_opp(a)) == 0,
        fr_sum(fr_opp(a), a) == 0,
{
    reveal(fr_sum);
    reveal(fr_prod);
    reveal(fr_opp);
    reveal(fr_diff);
    let p = modulus() as int;
    let r = (a as int) % p;
    lemma_mod_bound(a as int, p);
    // a + (p - r) % p  is congruent to  a + p - r  is congruent to  a - r, a multiple of p
    lemma_add_mod_noop(a as int, p - r, p);
    lemma_mod_bound(p - r, p);
    lemma_small_mod(((p - r) % p) as nat, p as nat);
    assert((a + (p - r) % p) % p == (a + (p - r)) % p) by {
        lemma_add_mod_noop(a as int, (p - r) % p, p);
    }
    lemma_sub_mod_noop(a as int, r, p);
    lemma_small_mod(r as nat, p as nat);
    assert((a - r) % p == 0) by {
        assert((r - r) % p == 0);
    }
    lemma_mod_multiples_vanish(1, a - r, p);
    assert(a + (p - r) == 1 * p + (a - r));
    lemma_fr_basics(a, fr_opp(a));
}

/// Subtracting is adding the additive inverse.
pub proof fn lemma_fr_diff_is_sum(a: nat, b: nat)
    ensures
        fr_diff(a, b) == fr_sum(a, fr_opp(b)),
{
    reveal(fr_sum);
    reveal(fr_prod);
    reveal(fr_opp);
    reveal(fr_diff);
    let p = modulus() as int;
    let r = (b as int) % p;
    lemma_mod_bound(b as int, p);
    lemma_add_mod_noop(a as int, p - r, p);
    lemma_add_mod_noop(a as int, (p - r) % p, p);
    lemma_mod_bound(p - r, p);
    lemma_small_mod(((p - r) % p) as nat, p as nat);
}

/// The product with an additive inverse is the additive inverse of the
/// product.
pub proof fn lemma_fr_prod_opp(a: nat, b: nat)
    ensures
        fr_prod(a, fr_opp(b)) == fr_opp(fr_prod(a, b)),
        fr_prod(fr_opp(b), a) == fr_opp(fr_prod(a, b)),
{
    reveal(fr_sum);
    reveal(fr_prod);
    reveal(fr_opp);
    reveal(fr_diff);
    let p = modulus() as int;
    let x = fr_prod(a, fr_opp(b));
    let y = fr_prod(a, b);
    // x + y is zero in the field, and so is opp(y) + y; both are below p
    assert(fr_sum(x, y) == 0) by {
        // a * opp(b) + a * b  is congruent to  a * (opp(b) + b)  is congruent to  0
        lemma_add_mod_noop((a * fr_opp(b)) as int, (a * b) as int, p);
        assert(a * fr_opp(b) + a * b == a * (fr_opp(b) + b)) by (nonlinear_arith);
        lemma_mul_mod_noop_general(a as int, (fr_opp(b) + b) as int, p);
        lemma_fr_opp_cancels(b);
        assert((fr_opp(b) + b) as int % p == 0);
        assert((a as int % p) * 0 == 0);
        lemma_small_mod(0, p as nat);
    }
    lemma_fr_opp_cancels(y);
    lemma_fr_basics(a, fr_opp(b));
    lemma_fr_basics(y, 0);
    lemma_fr_cancel_right(x, fr_opp(y), y);
    lemma_fr_basics(fr_opp(b), a);
}

/// Two values below the modulus that give one sum with a third are equal.
pub proof fn lemma_fr_cancel_right(x: nat, z: nat, y: nat)
    requires
        x < modulus(),
        z < modulus(),
        fr_sum(x, y) == fr_sum(z, y),
    ensures
        x == z,
{
    // add opp(y) on both sides and regroup
    lemma_fr_sum_assoc(x, y, fr_opp(y));
    lemma_fr_sum_assoc(z, y, fr_opp(y));
    lemma_fr_opp_cancels(y);
    lemma_fr_small(x);
    lemma_fr_small(z);
}

/// The product distributes over the sum.
pub proof fn lemma_fr_distributes(a: nat, b: nat, c: nat)
    ensures
        fr_prod(a, fr_sum(b, c)) == fr_sum(fr_prod(a, b), fr_prod(a, c)),
        fr_prod(fr_sum(b, c), a) == fr_sum(fr_prod(b, a), fr_prod(c, a)),
{
    reveal(fr_sum);
    reveal(fr_prod);
    reveal(fr_opp);
    reveal(fr_diff);
    let p = modulus() as int;
    lemma_mul_mod_noop_general(a as int, (b + c) as int, p);
    lemma_add_mod_noop((a * b) as int, (a * c) as int, p);
    assert(a * (b + c) == a * b + a * c) by (nonlinear_arith);
    lemma_fr_basics(a, fr_sum(b, c));
    lemma_fr_basics(a, b);
    lemma_fr_basics(a, c);
}

} // verus!
