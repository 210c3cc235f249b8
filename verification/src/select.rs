//! Ordering of indices by a yes/no classification (e.g. whether an
//! eigenvalue lies in the stability region), as the reordering steps of the
//! Riccati and controller-reduction routines use it.

use vstd::prelude::*;

verus! {

/// The indices i < k with `flags[i] == want`, in increasing order.
pub open spec fn indices_where(flags: Seq<bool>, want: bool, k: int) -> Seq<usize>
    decreases k,
{
    if k <= 0 {
        Seq::empty()
    } else if flags[k - 1] == want {
        indices_where(flags, want, k - 1).push((k - 1) as usize)
    } else {
        indices_where(flags, want, k - 1)
    }
}

/// The order that puts every index of class `first` before every other
/// index, keeping increasing order inside each class.
pub open spec fn class_order(flags: Seq<bool>, first: bool) -> Seq<usize> {
    indices_where(flags, first, flags.len() as int) + indices_where(flags, !first, flags.len() as int)
}

/// The indices i < flags.len() with `flags[i] == want`, in increasing order.
pub fn collect_indices(flags: &Vec<bool>, want: bool) -> (r: Vec<usize>)
    ensures
        r@ == indices_where(flags@, want, flags@.len() as int),
{
    let mut r: Vec<usize> = Vec::new();
    let mut k: usize = 0;
    while k < flags.len()
        invariant
            k <= flags@.len(),
            r@ == indices_where(flags@, want, k as int),
        decreases flags@.len() - k,
    {
        if flags[k] == want {
            r.push(k);
        }
        k = k + 1;
    }
    r
}

/// Every index of class `first` (in increasing order), then every other index
/// (in increasing order).
pub fn class_first_order(flags: &Vec<bool>, first: bool) -> (r: Vec<usize>)
    ensures
        r@ == class_order(flags@, first),
{
    let mut r = collect_indices(flags, first);
    let mut rest = collect_indices(flags, !first);
    r.append(&mut rest);
    r
}

/// What `indices_where` holds: increasing indices below k of the wanted
/// class, and each such index.
pub proof fn lemma_indices_where(flags: Seq<bool>, want: bool, k: int)
    requires
        0 <= k <= flags.len(),
        flags.len() <= usize::MAX,
    ensures
        forall|t: int| 0 <= t < indices_where(flags, want, k).len() ==> {
            let x = #[trigger] indices_where(flags, want, k)[t];
            &&& x < k
            &&& flags[x as int] == want
        },
        forall|s: int, t: int|
            0 <= s < t < indices_where(flags, want, k).len() ==> #[trigger] indices_where(flags, want, k)[s]
                < #[trigger] indices_where(flags, want, k)[t],
        forall|i: int| 0 <= i < k && flags[i] == want ==> #[trigger] indices_where(flags, want, k).contains(
            i as usize,
        ),
        indices_where(flags, want, k).len() + indices_where(flags, !want, k).len() == k,
    decreases k,
{
    if k > 0 {
        lemma_indices_where(flags, want, k - 1);
        lemma_indices_where(flags, !want, k - 1);
        let prev = indices_where(flags, want, k - 1);
        let cur = indices_where(flags, want, k);
        assert forall|s: int, t: int| 0 <= s < t < cur.len() implies #[trigger] cur[s] < #[trigger] cur[t] by {
            if t < prev.len() {
                assert(cur[s] == prev[s] && cur[t] == prev[t]);
            } else {
                assert(cur[s] == prev[s]);
            }
        }
        assert forall|i: int| 0 <= i < k && flags[i] == want implies #[trigger] cur.contains(i as usize) by {
            if i < k - 1 {
                assert(prev.contains(i as usize));
                let t = choose|t: int| 0 <= t < prev.len() && prev[t] == i as usize;
                assert(cur[t] == i as usize);
            } else {
                assert(cur[cur.len() - 1] == i as usize);
            }
        }
    }
}

/// The class-first order is a permutation of 0..len: it has len entries, all
/// distinct and below len, and every index below len occurs in it.
pub proof fn lemma_class_order_permutation(flags: Seq<bool>, first: bool)
    requires
        flags.len() <= usize::MAX,
    ensures
        class_order(flags, first).len() == flags.len(),
        forall|t: int| 0 <= t < flags.len() ==> #[trigger] class_order(flags, first)[t] < flags.len(),
        forall|s: int, t: int|
            0 <= s < t < flags.len() ==> #[trigger] class_order(flags, first)[s] != #[trigger] class_order(
                flags,
                first,
            )[t],
        forall|i: int| 0 <= i < flags.len() ==> #[trigger] class_order(flags, first).contains(i as usize),
        forall|t: int|
            0 <= t < indices_where(flags, first, flags.len() as int).len() ==> flags[#[trigger] class_order(
                flags,
                first,
            )[t] as int] == first,
        forall|t: int|
            indices_where(flags, first, flags.len() as int).len() <= t < flags.len() ==> flags[
            #[trigger] class_order(flags, first)[t] as int] != first,
{
    let k = flags.len() as int;
    let x = indices_where(flags, first, k);
    let y = indices_where(flags, !first, k);
    let o = class_order(flags, first);
    lemma_indices_where(flags, first, k);
    lemma_indices_where(flags, !first, k);
    assert forall|t: int| 0 <= t < flags.len() implies #[trigger] o[t] < flags.len() by {
        if t < x.len() {
            assert(o[t] == x[t]);
        } else {
            assert(o[t] == y[t - x.len()]);
        }
    }
    assert forall|s: int, t: int| 0 <= s < t < flags.len() implies #[trigger] o[s] != #[trigger] o[t] by {
        if t < x.len() {
            assert(o[s] == x[s] && o[t] == x[t]);
        } else if s >= x.len() {
            assert(o[s] == y[s - x.len()] && o[t] == y[t - x.len()]);
        } else {
            assert(o[s] == x[s] && o[t] == y[t - x.len()]);
            assert(flags[o[s] as int] == first);
            assert(flags[o[t] as int] == !first);
        }
    }
    assert forall|i: int| 0 <= i < flags.len() implies #[trigger] o.contains(i as usize) by {
        if flags[i] == first {
            assert(x.contains(i as usize));
            let t = choose|t: int| 0 <= t < x.len() && x[t] == i as usize;
            assert(o[t] == i as usize);
        } else {
            assert(y.contains(i as usize));
            let t = choose|t: int| 0 <= t < y.len() && y[t] == i as usize;
            assert(o[x.len() + t] == i as usize);
        }
    }
    assert forall|t: int| 0 <= t < x.len() implies flags[#[trigger] o[t] as int] == first by {
        assert(o[t] == x[t]);
    }
    assert forall|t: int| x.len() <= t < flags.len() implies flags[#[trigger] o[t] as int] != first by {
        assert(o[t] == y[t - x.len()]);
    }
}


/// How many entries of `flags` hold.
pub open spec fn count_true(flags: Seq<bool>) -> nat {
    indices_where(flags, true, flags.len() as int).len()
}

/// How many entries of `flags` hold.
pub fn count_flags(flags: &Vec<bool>) -> (r: usize)
    ensures
        r == count_true(flags@),
        r <= flags@.len(),
{
    let picked = collect_indices(flags, true);
    let _len = flags.len();
    proof {
        lemma_indices_where(flags@, true, flags@.len() as int);
    }
    picked.len()
}

/// A truncation order k lowered while the value just before the cut does not
/// exceed the one just after it (`ties[k - 1]` tells that of positions k - 1
/// and k), stopping at 0 and never moving an order of `limit` or more.
pub open spec fn back_off(ties: Seq<bool>, k: int, limit: int) -> int
    decreases k,
{
    if 0 < k && k < limit && ties[k - 1] {
        back_off(ties, k - 1, limit)
    } else {
        k
    }
}

pub proof fn lemma_back_off_bounds(ties: Seq<bool>, k: int, limit: int)
    requires
        0 <= k,
    ensures
        0 <= back_off(ties, k, limit) <= k,
        back_off(ties, k, limit) == 0 || back_off(ties, k, limit) >= limit || !ties[back_off(ties, k, limit)
            - 1],
    decreases k,
{
    if 0 < k && k < limit && ties[k - 1] {
        lemma_back_off_bounds(ties, k - 1, limit);
    }
}

/// Backing off stops at the first order that cuts no tie: every order above
/// the result, up to the one started from, is below the limit and cuts a tie.
pub proof fn lemma_back_off_maximal(ties: Seq<bool>, k: int, limit: int)
    requires
        0 <= k,
    ensures
        forall|j: int| back_off(ties, k, limit) < j <= k ==> j < limit && #[trigger] ties[j - 1],
    decreases k,
{
    if 0 < k && k < limit && ties[k - 1] {
        lemma_back_off_maximal(ties, k - 1, limit);
        lemma_back_off_bounds(ties, k - 1, limit);
    }
}

/// Computes `back_off(ties, k, limit)`.
pub fn back_off_ties(ties: &Vec<bool>, k: usize, limit: usize) -> (r: usize)
    requires
        limit <= ties@.len() + 1,
    ensures
        r == back_off(ties@, k as int, limit as int),
        r <= k,
{
    let mut j = k;
    proof {
        lemma_back_off_bounds(ties@, k as int, limit as int);
    }
    while j > 0 && j < limit && ties[j - 1]
        invariant
            j <= k,
            limit <= ties@.len() + 1,
            back_off(ties@, j as int, limit as int) == back_off(ties@, k as int, limit as int),
        decreases j,
    {
        j = j - 1;
    }
    j
}

/// The indices 0, 1, ..., n - 1 in order.
pub fn index_range(n: usize) -> (r: Vec<usize>)
    ensures
        r@.len() == n,
        forall|i: int| 0 <= i < n ==> #[trigger] r@[i] == i,
{
    let mut r: Vec<usize> = Vec::new();
    let mut i: usize = 0;
    while i < n
        invariant
            i <= n,
            r@.len() == i,
            forall|t: int| 0 <= t < i ==> #[trigger] r@[t] == t,
        decreases n - i,
    {
        r.push(i);
        i = i + 1;
    }
    r
}

} // verus!
