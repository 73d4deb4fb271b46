//! Sums of scaled points, and the index and scalar lists of selective
//! disclosure.

use vstd::prelude::*;

use crate::error::Error;
use crate::group::{g1_add, g1_mul, g1_scale, g1_sum, g2_add, g2_mul, g2_scale, g2_sum, G1, G2};
use crate::scalar::{
    fr_add, fr_diff, fr_mul, fr_neg, fr_opp, fr_prod, fr_sub, fr_sum, lemma_scalar_determined, Scalar,
};

verus! {

/// `init` plus the first `n` points, each times its scalar.
pub open spec fn g1_lincomb(init: Seq<u8>, points: Seq<Seq<u8>>, scalars: Seq<nat>, n: nat) -> Seq<u8>
    decreases n,
{
    if n == 0 {
        init
    } else {
        g1_sum(
            g1_lincomb(init, points, scalars, (n - 1) as nat),
            g1_mul(points[n - 1], scalars[n - 1]),
        )
    }
}

/// `init` plus, for each of the first `n` positions `k`, the point at index
/// `at[k]` times the scalar at `k`.
pub open spec fn g1_lincomb_at(
    init: Seq<u8>,
    points: Seq<Seq<u8>>,
    at: Seq<usize>,
    scalars: Seq<nat>,
    n: nat,
) -> Seq<u8>
    decreases n,
{
    if n == 0 {
        init
    } else {
        g1_sum(
            g1_lincomb_at(init, points, at, scalars, (n - 1) as nat),
            g1_mul(points[at[n - 1] as int], scalars[n - 1]),
        )
    }
}

/// `init` plus the first `n` points, each times its scalar.
pub open spec fn g2_lincomb(init: Seq<u8>, points: Seq<Seq<u8>>, scalars: Seq<nat>, n: nat) -> Seq<u8>
    decreases n,
{
    if n == 0 {
        init
    } else {
        g2_sum(
            g2_lincomb(init, points, scalars, (n - 1) as nat),
            g2_mul(points[n - 1], scalars[n - 1]),
        )
    }
}

/// `init` plus, for each of the first `n` positions `k`, the point at index
/// `at[k]` times the scalar at `k`.
pub open spec fn g2_lincomb_at(
    init: Seq<u8>,
    points: Seq<Seq<u8>>,
    at: Seq<usize>,
    scalars: Seq<nat>,
    n: nat,
) -> Seq<u8>
    decreases n,
{
    if n == 0 {
        init
    } else {
        g2_sum(
            g2_lincomb_at(init, points, at, scalars, (n - 1) as nat),
            g2_mul(points[at[n - 1] as int], scalars[n - 1]),
        )
    }
}

/// The encodings of the points of a list.
pub open spec fn g1_views(points: Seq<G1>) -> Seq<Seq<u8>> {
    points.map_values(|p: G1| p@)
}

/// The encodings of the points of a list.
pub open spec fn g2_views(points: Seq<G2>) -> Seq<Seq<u8>> {
    points.map_values(|p: G2| p@)
}

/// The values of the scalars of a list.
pub open spec fn values(scalars: Seq<Scalar>) -> Seq<nat> {
    scalars.map_values(|s: Scalar| s@)
}

/// Each value of a list times `k`, in the scalar field.
pub open spec fn scaled(scalars: Seq<nat>, k: nat) -> Seq<nat> {
    Seq::new(scalars.len(), |i: int| fr_prod(scalars[i], k))
}

/// The additive inverse of each value of a list, in the scalar field.
pub open spec fn negated(scalars: Seq<nat>) -> Seq<nat> {
    Seq::new(scalars.len(), |i: int| fr_opp(scalars[i]))
}

/// For each position, the blinding value minus `c` times the witness.
pub open spec fn masked_minus(blinds: Seq<nat>, c: nat, witnesses: Seq<nat>) -> Seq<nat> {
    Seq::new(blinds.len(), |i: int| fr_diff(blinds[i], fr_prod(c, witnesses[i])))
}

/// For each position, the blinding value plus `c` times the witness.
pub open spec fn masked_plus(blinds: Seq<nat>, c: nat, witnesses: Seq<nat>) -> Seq<nat> {
    Seq::new(blinds.len(), |i: int| fr_sum(blinds[i], fr_prod(c, witnesses[i])))
}

/// `init` plus the first `n` points.
pub open spec fn g2_sum_all(init: Seq<u8>, points: Seq<Seq<u8>>, n: nat) -> Seq<u8>
    decreases n,
{
    if n == 0 {
        init
    } else {
        g2_sum(g2_sum_all(init, points, (n - 1) as nat), points[n - 1])
    }
}

/// Whether the indices are strictly increasing and all below `n`.
pub open spec fn increasing_below(indices: Seq<usize>, n: nat) -> bool {
    &&& forall|i: int, j: int| 0 <= i < j < indices.len() ==> indices[i] < indices[j]
    &&& forall|i: int| 0 <= i < indices.len() ==> indices[i] < n
}

/// Whether the indices are all below `n` and no index comes twice.
pub open spec fn distinct_below(indices: Seq<usize>, n: nat) -> bool {
    &&& indices.no_duplicates()
    &&& forall|i: int| 0 <= i < indices.len() ==> indices[i] < n
}

/// The indices below `n` that are in the list, in increasing order: the
/// list sorted, where it holds distinct indices below `n`.
pub open spec fn disclosed(indices: Seq<usize>, n: nat) -> Seq<usize>
    decreases n,
{
    if n == 0 {
        Seq::empty()
    } else if indices.contains((n - 1) as usize) {
        disclosed(indices, (n - 1) as nat).push((n - 1) as usize)
    } else {
        disclosed(indices, (n - 1) as nat)
    }
}

/// The indices below `n` that are not in the list, in increasing order.
pub open spec fn hidden(indices: Seq<usize>, n: nat) -> Seq<usize>
    decreases n,
{
    if n == 0 {
        Seq::empty()
    } else if indices.contains((n - 1) as usize) {
        hidden(indices, (n - 1) as nat)
    } else {
        hidden(indices, (n - 1) as nat).push((n - 1) as usize)
    }
}

/// The items at the given indices, in the order of the indices.
pub open spec fn selected<T>(items: Seq<T>, indices: Seq<usize>) -> Seq<T> {
    Seq::new(indices.len(), |k: int| items[indices[k] as int])
}

/// The hidden indices are exactly the indices below `n` that are not
/// disclosed, and they come in increasing order.
pub proof fn lemma_hidden_members(indices: Seq<usize>, n: nat)
    requires
        n <= usize::MAX,
    ensures
        forall|k: usize| #[trigger] hidden(indices, n).contains(k) <==> (k < n && !indices.contains(k)),
        forall|i: int, j: int|
            0 <= i < j < hidden(indices, n).len() ==> hidden(indices, n)[i] < hidden(indices, n)[j],
    decreases n,
{
    if n > 0 {
        let before = hidden(indices, (n - 1) as nat);
        let last = (n - 1) as usize;
        lemma_hidden_members(indices, (n - 1) as nat);
        if !indices.contains(last) {
            let now = before.push(last);
            assert forall|k: usize| #[trigger] now.contains(k) <==> (k < n && !indices.contains(k)) by {
                if now.contains(k) {
                    let i = choose|i: int| 0 <= i < now.len() && now[i] == k;
                    if i < before.len() {
                        assert(before[i] == k);
                        assert(before.contains(k));
                    }
                }
                if k < n && !indices.contains(k) {
                    if k == last {
                        assert(now[before.len() as int] == k);
                    } else {
                        assert(before.contains(k));
                        let i = choose|i: int| 0 <= i < before.len() && before[i] == k;
                        assert(now[i] == k);
                    }
                }
            }
            assert forall|i: int, j: int| 0 <= i < j < now.len() implies now[i] < now[j] by {
                assert(before.contains(before[i]));
            }
        }
    }
}

/// Two lists that hold the same indices below `n` hide the same indices.
pub proof fn lemma_hidden_agree(a: Seq<usize>, b: Seq<usize>, n: nat)
    requires
        n <= usize::MAX,
        forall|k: usize| k < n ==> (a.contains(k) <==> b.contains(k)),
    ensures
        hidden(a, n) == hidden(b, n),
    decreases n,
{
    if n > 0 {
        lemma_hidden_agree(a, b, (n - 1) as nat);
    }
}

/// The disclosed and the hidden indices together are as many as the
/// attributes.
pub proof fn lemma_hidden_count(indices: Seq<usize>, n: nat)
    requires
        n <= usize::MAX,
        increasing_below(indices, n),
    ensures
        hidden(indices, n).len() + indices.len() == n,
    decreases n,
{
    if n == 0 {
        if indices.len() > 0 {
            assert(indices[0] < n);
        }
    } else {
        let last = (n - 1) as usize;
        if indices.len() > 0 && indices.last() == last {
            let rest = indices.drop_last();
            assert(indices.contains(last)) by {
                assert(indices[indices.len() - 1] == last);
            }
            assert forall|k: usize| k < n - 1 implies (indices.contains(k) <==> rest.contains(k)) by {
                if indices.contains(k) {
                    let i = choose|i: int| 0 <= i < indices.len() && indices[i] == k;
                    assert(i < indices.len() - 1);
                    assert(rest[i] == k);
                }
                if rest.contains(k) {
                    let i = choose|i: int| 0 <= i < rest.len() && rest[i] == k;
                    assert(indices[i] == k);
                }
            }
            lemma_hidden_agree(indices, rest, (n - 1) as nat);
            assert(increasing_below(rest, (n - 1) as nat)) by {
                assert forall|i: int| 0 <= i < rest.len() implies rest[i] < n - 1 by {
                    assert(indices[i] < indices[indices.len() - 1]);
                }
            }
            lemma_hidden_count(rest, (n - 1) as nat);
        } else {
            assert(!indices.contains(last)) by {
                if indices.contains(last) {
                    let i = choose|i: int| 0 <= i < indices.len() && indices[i] == last;
                    if i < indices.len() - 1 {
                        assert(indices[i] < indices[indices.len() - 1]);
                    }
                }
            }
            assert(increasing_below(indices, (n - 1) as nat)) by {
                assert forall|i: int| 0 <= i < indices.len() implies indices[i] < n - 1 by {
                    if indices[i] == last {
                        assert(indices.contains(last));
                    }
                }
            }
            lemma_hidden_count(indices, (n - 1) as nat);
        }
    }
}

/// The sorted list holds exactly the listed indices below `n`, in
/// increasing order, and hides what the list hides; the sorted and the
/// hidden indices together are as many as the attributes.
pub proof fn lemma_disclosed(indices: Seq<usize>, n: nat)
    requires
        n <= usize::MAX,
    ensures
        forall|k: usize| #[trigger] disclosed(indices, n).contains(k) <==> (k < n && indices.contains(k)),
        increasing_below(disclosed(indices, n), n),
        hidden(disclosed(indices, n), n) == hidden(indices, n),
        hidden(indices, n).len() + disclosed(indices, n).len() == n,
    decreases n,
{
    lemma_disclosed_members(indices, n);
    lemma_hidden_agree(disclosed(indices, n), indices, n);
    lemma_hidden_count(disclosed(indices, n), n);
}

/// The sorted list holds exactly the listed indices below `n`, in
/// increasing order.
pub proof fn lemma_disclosed_members(indices: Seq<usize>, n: nat)
    requires
        n <= usize::MAX,
    ensures
        forall|k: usize| #[trigger] disclosed(indices, n).contains(k) <==> (k < n && indices.contains(k)),
        increasing_below(disclosed(indices, n), n),
    decreases n,
{
    if n > 0 {
        let before = disclosed(indices, (n - 1) as nat);
        let last = (n - 1) as usize;
        lemma_disclosed_members(indices, (n - 1) as nat);
        if indices.contains(last) {
            let now = before.push(last);
            assert forall|k: usize| #[trigger] now.contains(k) <==> (k < n && indices.contains(k)) by {
                if now.contains(k) {
                    let i = choose|i: int| 0 <= i < now.len() && now[i] == k;
                    if i < before.len() {
                        assert(before[i] == k);
                        assert(before.contains(k));
                    }
                }
                if k < n && indices.contains(k) {
                    if k == last {
                        assert(now[before.len() as int] == k);
                    } else {
                        assert(before.contains(k));
                        let i = choose|i: int| 0 <= i < before.len() && before[i] == k;
                        assert(now[i] == k);
                    }
                }
            }
            assert forall|i: int, j: int| 0 <= i < j < now.len() implies now[i] < now[j] by {
                assert(before.contains(before[i]));
            }
            assert forall|i: int| 0 <= i < now.len() implies now[i] < n by {
                if i < before.len() {
                    assert(before.contains(before[i]));
                }
            }
        } else {
            assert forall|i: int| 0 <= i < before.len() implies before[i] < n by {
                assert(before.contains(before[i]));
            }
        }
    }
}

/// Sorting keeps the number of distinct indices below `n`.
pub proof fn lemma_disclosed_count(indices: Seq<usize>, n: nat)
    requires
        n <= usize::MAX,
        distinct_below(indices, n),
    ensures
        disclosed(indices, n).len() == indices.len(),
        hidden(indices, n).len() + indices.len() == n,
{
    let sorted = disclosed(indices, n);
    lemma_disclosed(indices, n);
    assert(sorted.no_duplicates());
    assert(sorted.to_set() =~= indices.to_set()) by {
        assert forall|k: usize| sorted.to_set().contains(k) <==> indices.to_set().contains(k) by {
            if indices.contains(k) {
                let i = choose|i: int| 0 <= i < indices.len() && indices[i] == k;
                assert(k < n);
            }
            assert(sorted.contains(k) <==> (k < n && indices.contains(k)));
        }
    }
    sorted.unique_seq_to_set();
    indices.unique_seq_to_set();
}

/// Computes `init` plus the first `n` points, each times its scalar.
pub(crate) fn g1_combine(init: &G1, points: &Vec<G1>, scalars: &Vec<Scalar>, n: usize) -> (r: G1)
    requires
        n <= points.len(),
        n <= scalars.len(),
    ensures
        r@ == g1_lincomb(init@, g1_views(points@), values(scalars@), n as nat),
{
    let mut acc = *init;
    let mut i: usize = 0;
    while i < n
        invariant
            i <= n,
            n <= points.len(),
            n <= scalars.len(),
            acc@ == g1_lincomb(init@, g1_views(points@), values(scalars@), i as nat),
        decreases n - i,
    {
        let term = g1_scale(&points[i], &scalars[i]);
        acc = g1_add(&acc, &term);
        i += 1;
    }
    acc
}

/// Computes `init` plus, for each position `k` of `at`, the point at index
/// `at[k]` times the scalar at `k`.
pub(crate) fn g1_combine_at(init: &G1, points: &Vec<G1>, at: &Vec<usize>, scalars: &Vec<Scalar>) -> (r: G1)
    requires
        at.len() == scalars.len(),
        forall|k: int| 0 <= k < at.len() ==> at[k] < points.len(),
    ensures
        r@ == g1_lincomb_at(init@, g1_views(points@), at@, values(scalars@), at@.len()),
{
    let n = at.len();
    let mut acc = *init;
    let mut i: usize = 0;
    while i < n
        invariant
            i <= n == at.len(),
            at.len() == scalars.len(),
            forall|k: int| 0 <= k < at.len() ==> at[k] < points.len(),
            acc@ == g1_lincomb_at(init@, g1_views(points@), at@, values(scalars@), i as nat),
        decreases n - i,
    {
        let term = g1_scale(&points[at[i]], &scalars[i]);
        acc = g1_add(&acc, &term);
        i += 1;
    }
    acc
}

/// Computes `init` plus the first `n` points, each times its scalar.
pub(crate) fn g2_combine(init: &G2, points: &Vec<G2>, scalars: &Vec<Scalar>, n: usize) -> (r: G2)
    requires
        n <= points.len(),
        n <= scalars.len(),
    ensures
        r@ == g2_lincomb(init@, g2_views(points@), values(scalars@), n as nat),
{
    let mut acc = *init;
    let mut i: usize = 0;
    while i < n
        invariant
            i <= n,
            n <= points.len(),
            n <= scalars.len(),
            acc@ == g2_lincomb(init@, g2_views(points@), values(scalars@), i as nat),
        decreases n - i,
    {
        let term = g2_scale(&points[i], &scalars[i]);
        acc = g2_add(&acc, &term);
        i += 1;
    }
    acc
}

/// Computes `init` plus, for each position `k` of `at`, the point at index
/// `at[k]` times the scalar at `k`.
pub(crate) fn g2_combine_at(init: &G2, points: &Vec<G2>, at: &Vec<usize>, scalars: &Vec<Scalar>) -> (r: G2)
    requires
        at.len() == scalars.len(),
        forall|k: int| 0 <= k < at.len() ==> at[k] < points.len(),
    ensures
        r@ == g2_lincomb_at(init@, g2_views(points@), at@, values(scalars@), at@.len()),
{
    let n = at.len();
    let mut acc = *init;
    let mut i: usize = 0;
    while i < n
        invariant
            i <= n == at.len(),
            at.len() == scalars.len(),
            forall|k: int| 0 <= k < at.len() ==> at[k] < points.len(),
            acc@ == g2_lincomb_at(init@, g2_views(points@), at@, values(scalars@), i as nat),
        decreases n - i,
    {
        let term = g2_scale(&points[at[i]], &scalars[i]);
        acc = g2_add(&acc, &term);
        i += 1;
    }
    acc
}

/// Computes `init` plus all points of a list.
pub fn g2_accumulate(init: &G2, points: &Vec<G2>) -> (r: G2)
    ensures
        r@ == g2_sum_all(init@, g2_views(points@), points@.len()),
{
    let mut acc = *init;
    let mut i: usize = 0;
    while i < points.len()
        invariant
            i <= points.len(),
            acc@ == g2_sum_all(init@, g2_views(points@), i as nat),
        decreases points.len() - i,
    {
        acc = g2_add(&acc, &points[i]);
        i += 1;
    }
    acc
}

/// Whether an index occurs in a list.
pub fn index_in(indices: &Vec<usize>, i: usize) -> (r: bool)
    ensures
        r == indices@.contains(i),
{
    let mut k: usize = 0;
    while k < indices.len()
        invariant
            k <= indices.len(),
            forall|j: int| 0 <= j < k ==> indices[j] != i,
        decreases indices.len() - k,
    {
        if indices[k] == i {
            return true;
        }
        k += 1;
    }
    false
}

/// Whether the indices are strictly increasing and all below `n`.
pub fn check_indices(indices: &Vec<usize>, n: usize) -> (r: bool)
    ensures
        r == increasing_below(indices@, n as nat),
{
    let mut k: usize = 0;
    while k < indices.len()
        invariant
            k <= indices.len(),
            forall|i: int, j: int| 0 <= i < j < k ==> indices[i] < indices[j],
            forall|i: int| 0 <= i < k ==> indices[i] < n,
        decreases indices.len() - k,
    {
        if indices[k] >= n {
            return false;
        }
        if k > 0 && indices[k - 1] >= indices[k] {
            return false;
        }
        k += 1;
    }
    true
}

/// Whether the indices are all below `n` and no index comes twice.
pub fn check_distinct(indices: &Vec<usize>, n: usize) -> (r: bool)
    ensures
        r == distinct_below(indices@, n as nat),
{
    let mut k: usize = 0;
    while k < indices.len()
        invariant
            k <= indices.len(),
            forall|i: int, j: int| 0 <= i < j < k ==> indices[i] != indices[j],
            forall|i: int| 0 <= i < k ==> indices[i] < n,
        decreases indices.len() - k,
    {
        if indices[k] >= n {
            return false;
        }
        let mut j: usize = 0;
        while j < k
            invariant
                j <= k,
                k < indices.len(),
                forall|i: int| 0 <= i < j ==> indices[i] != indices[k as int],
            decreases k - j,
        {
            if indices[j] == indices[k] {
                return false;
            }
            j += 1;
        }
        k += 1;
    }
    true
}

/// The indices below `n` that are in the list, in increasing order.
pub fn sorted_indices(indices: &Vec<usize>, n: usize) -> (r: Vec<usize>)
    ensures
        r@ == disclosed(indices@, n as nat),
        forall|k: int| 0 <= k < r.len() ==> r[k] < n,
{
    let mut out: Vec<usize> = Vec::new();
    let mut i: usize = 0;
    while i < n
        invariant
            i <= n,
            out@ == disclosed(indices@, i as nat),
            forall|k: int| 0 <= k < out.len() ==> out[k] < i,
        decreases n - i,
    {
        if index_in(indices, i) {
            out.push(i);
        }
        i += 1;
    }
    out
}

/// The indices below `n` that are not in the list, in increasing order.
pub fn hidden_indices(indices: &Vec<usize>, n: usize) -> (r: Vec<usize>)
    ensures
        r@ == hidden(indices@, n as nat),
        forall|k: int| 0 <= k < r.len() ==> r[k] < n,
{
    let mut out: Vec<usize> = Vec::new();
    let mut i: usize = 0;
    while i < n
        invariant
            i <= n,
            out@ == hidden(indices@, i as nat),
            forall|k: int| 0 <= k < out.len() ==> out[k] < i,
        decreases n - i,
    {
        if !index_in(indices, i) {
            out.push(i);
        }
        i += 1;
    }
    out
}

/// The scalars at the given indices, in the order of the indices.
pub(crate) fn select_scalars(scalars: &Vec<Scalar>, indices: &Vec<usize>) -> (r: Vec<Scalar>)
    requires
        forall|k: int| 0 <= k < indices.len() ==> indices[k] < scalars.len(),
    ensures
        r@ == selected(scalars@, indices@),
{
    let mut out: Vec<Scalar> = Vec::new();
    let mut k: usize = 0;
    while k < indices.len()
        invariant
            k <= indices.len(),
            forall|j: int| 0 <= j < indices.len() ==> indices[j] < scalars.len(),
            out.len() == k,
            forall|j: int| 0 <= j < k ==> out[j] == scalars[indices[j] as int],
        decreases indices.len() - k,
    {
        out.push(scalars[indices[k]]);
        k += 1;
    }
    assert(out@ =~= selected(scalars@, indices@));
    out
}

/// A copy of a list.
pub fn copy_list<T: Copy>(items: &Vec<T>) -> (r: Vec<T>)
    ensures
        r@ == items@,
{
    let mut out: Vec<T> = Vec::new();
    let mut k: usize = 0;
    while k < items.len()
        invariant
            k <= items.len(),
            out.len() == k,
            forall|j: int| 0 <= j < k ==> out[j] == items[j],
        decreases items.len() - k,
    {
        out.push(items[k]);
        k += 1;
    }
    assert(out@ =~= items@);
    out
}

/// As many random scalars as asked for.
pub fn random_scalars(n: usize) -> (r: Vec<Scalar>)
    ensures
        r.len() == n,
{
    let mut out: Vec<Scalar> = Vec::new();
    let mut k: usize = 0;
    while k < n
        invariant
            k <= n,
            out.len() == k,
        decreases n - k,
    {
        out.push(Scalar::random());
        k += 1;
    }
    out
}

/// As many random scalars as asked for, none of them zero. Gives up where
/// the random source keeps returning zero.
pub fn random_nonzero_scalars(n: usize) -> (r: Result<Vec<Scalar>, Error>)
    ensures
        match r {
            Ok(v) => v.len() == n && forall|i: int| 0 <= i < n ==> (#[trigger] v@[i])@ != 0,
            Err(e) => e == Error::RandomnessFailure,
        },
{
    let mut out: Vec<Scalar> = Vec::new();
    let mut k: usize = 0;
    while k < n
        invariant
            k <= n,
            out.len() == k,
            forall|i: int| 0 <= i < k ==> (#[trigger] out@[i])@ != 0,
        decreases n - k,
    {
        match Scalar::random_nonzero() {
            Ok(s) => {
                out.push(s);
            },
            Err(e) => {
                return Err(e);
            },
        }
        k += 1;
    }
    Ok(out)
}

/// Each scalar of a list times `k`.
pub fn scale_all(scalars: &Vec<Scalar>, k: &Scalar) -> (r: Vec<Scalar>)
    ensures
        r.len() == scalars.len(),
        values(r@) == scaled(values(scalars@), k@),
{
    let mut out: Vec<Scalar> = Vec::new();
    let mut i: usize = 0;
    while i < scalars.len()
        invariant
            i <= scalars.len(),
            out.len() == i,
            forall|j: int| 0 <= j < i ==> out[j]@ == fr_prod(scalars[j]@, k@),
        decreases scalars.len() - i,
    {
        out.push(fr_mul(&scalars[i], k));
        i += 1;
    }
    assert(values(out@) =~= scaled(values(scalars@), k@));
    out
}

/// The additive inverse of each scalar of a list.
pub fn negate_all(scalars: &Vec<Scalar>) -> (r: Vec<Scalar>)
    ensures
        r.len() == scalars.len(),
        values(r@) == negated(values(scalars@)),
{
    let mut out: Vec<Scalar> = Vec::new();
    let mut i: usize = 0;
    while i < scalars.len()
        invariant
            i <= scalars.len(),
            out.len() == i,
            forall|j: int| 0 <= j < i ==> out[j]@ == fr_opp(scalars[j]@),
        decreases scalars.len() - i,
    {
        out.push(fr_neg(&scalars[i]));
        i += 1;
    }
    assert(values(out@) =~= negated(values(scalars@)));
    out
}

/// For each position, the blinding scalar minus `c` times the witness.
pub(crate) fn respond_minus(blinds: &Vec<Scalar>, c: &Scalar, witnesses: &Vec<Scalar>) -> (r: Vec<Scalar>)
    requires
        blinds.len() == witnesses.len(),
    ensures
        values(r@) == masked_minus(values(blinds@), c@, values(witnesses@)),
{
    let mut out: Vec<Scalar> = Vec::new();
    let mut i: usize = 0;
    while i < blinds.len()
        invariant
            i <= blinds.len(),
            blinds.len() == witnesses.len(),
            out.len() == i,
            forall|j: int| 0 <= j < i ==> out[j]@ == fr_diff(blinds[j]@, fr_prod(c@, witnesses[j]@)),
        decreases blinds.len() - i,
    {
        let cw = fr_mul(c, &witnesses[i]);
        out.push(fr_sub(&blinds[i], &cw));
        i += 1;
    }
    assert(values(out@) =~= masked_minus(values(blinds@), c@, values(witnesses@)));
    out
}

/// For each position, the blinding scalar plus `c` times the witness.
pub(crate) fn respond_plus(blinds: &Vec<Scalar>, c: &Scalar, witnesses: &Vec<Scalar>) -> (r: Vec<Scalar>)
    requires
        blinds.len() == witnesses.len(),
    ensures
        values(r@) == masked_plus(values(blinds@), c@, values(witnesses@)),
{
    let mut out: Vec<Scalar> = Vec::new();
    let mut i: usize = 0;
    while i < blinds.len()
        invariant
            i <= blinds.len(),
            blinds.len() == witnesses.len(),
            out.len() == i,
            forall|j: int| 0 <= j < i ==> out[j]@ == fr_sum(blinds[j]@, fr_prod(c@, witnesses[j]@)),
        decreases blinds.len() - i,
    {
        let cw = fr_mul(c, &witnesses[i]);
        out.push(fr_add(&blinds[i], &cw));
        i += 1;
    }
    assert(values(out@) =~= masked_plus(values(blinds@), c@, values(witnesses@)));
    out
}

/// Lists of scalars with the same values hold the same scalars.
pub proof fn lemma_scalars_determined(a: Seq<Scalar>, b: Seq<Scalar>)
    requires
        values(a) == values(b),
    ensures
        a == b,
{
    assert(values(a).len() == a.len());
    assert(values(b).len() == b.len());
    assert forall|i: int| 0 <= i < a.len() implies a[i] == b[i] by {
        assert(values(a)[i] == a[i]@);
        assert(values(b)[i] == b[i]@);
        lemma_scalar_determined(a[i], b[i]);
    }
    assert(a =~= b);
}

} // verus!
