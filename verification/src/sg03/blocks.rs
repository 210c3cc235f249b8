//! The diagonal blocks of an upper quasi-triangular (real Schur) matrix.
//!
//! The Lyapunov solvers of this chapter walk the diagonal of A block by
//! block: a block is 2 x 2 where the subdiagonal entry below its first row
//! is nonzero, 1 x 1 otherwise. `zero_sub[k]` tells whether A(k+1, k) is
//! zero. Going forward the blocks are formed from the top, going backward
//! from the bottom.

use vstd::prelude::*;

verus! {

/// The blocks (start, size) met going forward from row `me` of an m x m
/// matrix.
pub open spec fn forward_blocks(zero_sub: Seq<bool>, m: int, me: int) -> Seq<(usize, usize)>
    decreases m - me,
{
    if me >= m || me < 0 {
        Seq::empty()
    } else {
        let mb: int = if me + 1 == m || zero_sub[me] {
            1
        } else {
            2
        };
        seq![(me as usize, mb as usize)] + forward_blocks(zero_sub, m, me + mb)
    }
}

/// The blocks (start, size) met going backward from the rows above `end`.
pub open spec fn backward_blocks(zero_sub: Seq<bool>, end: int) -> Seq<(usize, usize)>
    decreases end,
{
    if end <= 0 {
        Seq::empty()
    } else {
        let start: int = if end == 1 {
            0
        } else if zero_sub[end - 2] {
            end - 1
        } else {
            end - 2
        };
        seq![(start as usize, (end - start) as usize)] + backward_blocks(zero_sub, start)
    }
}

/// The diagonal blocks of an m x m quasi-triangular matrix, top to bottom.
pub fn blocks_forward(zero_sub: &Vec<bool>, m: usize) -> (r: Vec<(usize, usize)>)
    requires
        m <= zero_sub@.len() + 1,
    ensures
        r@ == forward_blocks(zero_sub@, m as int, 0),
{
    let mut r: Vec<(usize, usize)> = Vec::new();
    let mut me: usize = 0;
    while me < m
        invariant
            me <= m,
            m <= zero_sub@.len() + 1,
            r@ + forward_blocks(zero_sub@, m as int, me as int) == forward_blocks(zero_sub@, m as int, 0),
        decreases m - me,
    {
        let mb: usize = if me + 1 == m || zero_sub[me] {
            1
        } else {
            2
        };
        let ghost before = r@;
        r.push((me, mb));
        proof {
            assert(forward_blocks(zero_sub@, m as int, me as int) == seq![(me, mb)] + forward_blocks(
                zero_sub@,
                m as int,
                me + mb,
            ));
            assert(before + forward_blocks(zero_sub@, m as int, me as int) == r@ + forward_blocks(
                zero_sub@,
                m as int,
                me + mb,
            ));
        }
        me = me + mb;
    }
    proof {
        assert(r@ + forward_blocks(zero_sub@, m as int, me as int) == r@);
    }
    r
}

/// The diagonal blocks of an m x m quasi-triangular matrix, bottom to top.
pub fn blocks_backward(zero_sub: &Vec<bool>, m: usize) -> (r: Vec<(usize, usize)>)
    requires
        m <= zero_sub@.len() + 1,
    ensures
        r@ == backward_blocks(zero_sub@, m as int),
{
    let mut r: Vec<(usize, usize)> = Vec::new();
    let mut end: usize = m;
    while end > 0
        invariant
            end <= m,
            m <= zero_sub@.len() + 1,
            r@ + backward_blocks(zero_sub@, end as int) == backward_blocks(zero_sub@, m as int),
        decreases end,
    {
        let start: usize = if end == 1 {
            0
        } else if zero_sub[end - 2] {
            end - 1
        } else {
            end - 2
        };
        let ghost before = r@;
        r.push((start, end - start));
        proof {
            assert(backward_blocks(zero_sub@, end as int) == seq![(start, (end - start) as usize)]
                + backward_blocks(zero_sub@, start as int));
            assert(before + backward_blocks(zero_sub@, end as int) == r@ + backward_blocks(
                zero_sub@,
                start as int,
            ));
        }
        end = start;
    }
    proof {
        assert(r@ + backward_blocks(zero_sub@, end as int) == r@);
    }
    r
}


/// Row `s` starts a new block whichever way the diagonal is walked: it is
/// the first or last row boundary, or A(s, s-1) is zero.
pub open spec fn is_cut(zero_sub: Seq<bool>, m: int, s: int) -> bool {
    s == 0 || s == m || (0 < s < m && zero_sub[s - 1])
}

/// No two consecutive subdiagonal entries are nonzero (as in a real Schur
/// form, whose 2 x 2 blocks never overlap).
pub open spec fn no_overlapping_pairs(zero_sub: Seq<bool>, m: int) -> bool {
    forall|k: int| 0 <= k && k + 2 < m ==> #[trigger] zero_sub[k] || zero_sub[k + 1]
}

/// The blocks, in the order given, tile the rows from `from` to `to`: each
/// has size 1 or 2, each starts where the one before ended, and a 2 x 2
/// block has a nonzero subdiagonal entry.
pub open spec fn tiles(blocks: Seq<(usize, usize)>, zero_sub: Seq<bool>, from: int, to: int) -> bool {
    &&& blocks.len() == 0 <==> from == to
    &&& blocks.len() > 0 ==> blocks[0].0 == from
    &&& blocks.len() > 0 ==> blocks.last().0 + blocks.last().1 == to
    &&& forall|k: int| 0 <= k < blocks.len() ==> 1 <= #[trigger] blocks[k].1 <= 2
    &&& forall|k: int| 0 <= k < blocks.len() && blocks[k].1 == 2 ==> !zero_sub[#[trigger] blocks[k].0 as int]
    &&& forall|k: int| 0 < k < blocks.len() ==> #[trigger] blocks[k].0 == blocks[k - 1].0 + blocks[k - 1].1
}

/// Going forward, the blocks tile the rows from `me` down to the last.
pub proof fn lemma_forward_tiles(zero_sub: Seq<bool>, m: int, me: int)
    requires
        0 <= me <= m,
        m <= usize::MAX,
    ensures
        tiles(forward_blocks(zero_sub, m, me), zero_sub, me, m),
    decreases m - me,
{
    if me < m {
        let mb: int = if me + 1 == m || zero_sub[me] {
            1
        } else {
            2
        };
        lemma_forward_tiles(zero_sub, m, me + mb);
        let rest = forward_blocks(zero_sub, m, me + mb);
        let all = forward_blocks(zero_sub, m, me);
        assert(all == seq![(me as usize, mb as usize)] + rest);
        assert(all[0] == (me as usize, mb as usize));
        assert forall|k: int| 0 < k < all.len() implies #[trigger] all[k].0 == all[k - 1].0 + all[k - 1].1 by {
            assert(all[k] == rest[k - 1]);
            if k > 1 {
                assert(all[k - 1] == rest[k - 2]);
            }
        }
        assert forall|k: int| 0 <= k < all.len() && all[k].1 == 2 implies !zero_sub[#[trigger] all[k].0 as int] by {
            if k > 0 {
                assert(all[k] == rest[k - 1]);
            }
        }
        assert forall|k: int| 0 <= k < all.len() implies 1 <= #[trigger] all[k].1 <= 2 by {
            if k > 0 {
                assert(all[k] == rest[k - 1]);
            }
        }
    }
}

/// Going backward, the blocks tile the rows from `end` up to the first
/// (read in reverse: each block ends where the one before started).
pub proof fn lemma_backward_tiles(zero_sub: Seq<bool>, end: int)
    requires
        0 <= end <= usize::MAX,
    ensures
        tiles(backward_blocks(zero_sub, end).reverse(), zero_sub, 0, end),
    decreases end,
{
    if end > 0 {
        let start: int = if end == 1 {
            0
        } else if zero_sub[end - 2] {
            end - 1
        } else {
            end - 2
        };
        lemma_backward_tiles(zero_sub, start);
        let rest = backward_blocks(zero_sub, start).reverse();
        let all = backward_blocks(zero_sub, end);
        assert(all == seq![(start as usize, (end - start) as usize)] + backward_blocks(zero_sub, start));
        let rev = all.reverse();
        assert(rev == rest.push((start as usize, (end - start) as usize))) by {
            assert(rev =~= rest.push((start as usize, (end - start) as usize)));
        }
        assert forall|k: int| 0 < k < rev.len() implies #[trigger] rev[k].0 == rev[k - 1].0 + rev[k - 1].1 by {
            assert(rev[k - 1] == rest[k - 1]);
            if k < rest.len() {
                assert(rev[k] == rest[k]);
            }
        }
        assert forall|k: int| 0 <= k < rev.len() && rev[k].1 == 2 implies !zero_sub[#[trigger] rev[k].0 as int] by {
            if k < rest.len() {
                assert(rev[k] == rest[k]);
            }
        }
        assert forall|k: int| 0 <= k < rev.len() implies 1 <= #[trigger] rev[k].1 <= 2 by {
            if k < rest.len() {
                assert(rev[k] == rest[k]);
            }
        }
    }
}

/// Walking forward from `me` to the bound m passes through every cut s
/// between them: the blocks up to s are those met walking to the bound s.
proof fn lemma_forward_split(zero_sub: Seq<bool>, m: int, me: int, s: int)
    requires
        0 <= me <= s <= m,
        is_cut(zero_sub, m, s),
    ensures
        forward_blocks(zero_sub, m, me) == forward_blocks(zero_sub, s, me) + forward_blocks(zero_sub, m, s),
    decreases s - me,
{
    if me == s {
        assert(forward_blocks(zero_sub, s, me) == Seq::<(usize, usize)>::empty());
        assert(forward_blocks(zero_sub, s, me) + forward_blocks(zero_sub, m, s) =~= forward_blocks(
            zero_sub,
            m,
            s,
        ));
    } else {
        let mb: int = if me + 1 == m || zero_sub[me] {
            1
        } else {
            2
        };
        let mb_s: int = if me + 1 == s || zero_sub[me] {
            1
        } else {
            2
        };
        assert(mb == mb_s);
        lemma_forward_split(zero_sub, m, me + mb, s);
        let head = seq![(me as usize, mb as usize)];
        assert(forward_blocks(zero_sub, m, me) == head + forward_blocks(zero_sub, m, me + mb));
        assert(forward_blocks(zero_sub, s, me) == head + forward_blocks(zero_sub, s, me + mb));
        assert(head + (forward_blocks(zero_sub, s, me + mb) + forward_blocks(zero_sub, m, s)) =~= (head
            + forward_blocks(zero_sub, s, me + mb)) + forward_blocks(zero_sub, m, s));
    }
}

proof fn lemma_backward_equals_reversed_forward(zero_sub: Seq<bool>, m: int, end: int)
    requires
        0 <= end <= m,
        is_cut(zero_sub, m, end),
        no_overlapping_pairs(zero_sub, m),
    ensures
        backward_blocks(zero_sub, end) == forward_blocks(zero_sub, end, 0).reverse(),
    decreases end,
{
    if end == 0 {
        assert(forward_blocks(zero_sub, end, 0).reverse() =~= Seq::<(usize, usize)>::empty());
    } else {
        let start: int = if end == 1 {
            0
        } else if zero_sub[end - 2] {
            end - 1
        } else {
            end - 2
        };
        if end >= 2 && !zero_sub[end - 2] && end - 2 > 0 {
            assert(zero_sub[end - 3] || zero_sub[end - 3 + 1]);
        }
        assert(is_cut(zero_sub, m, start));
        assert(is_cut(zero_sub, end, start));
        lemma_backward_equals_reversed_forward(zero_sub, m, start);
        lemma_forward_split(zero_sub, end, 0, start);
        let last = forward_blocks(zero_sub, end, start);
        assert(forward_blocks(zero_sub, end, start + (end - start)) == Seq::<(usize, usize)>::empty());
        assert(last =~= seq![(start as usize, (end - start) as usize)]);
        let pre = forward_blocks(zero_sub, start, 0);
        assert((pre + last).reverse() =~= seq![(start as usize, (end - start) as usize)] + pre.reverse());
    }
}

/// On a real Schur form (no overlapping 2 x 2 blocks) walking backward meets
/// the same blocks as walking forward, in the reverse order.
pub proof fn lemma_walks_agree(zero_sub: Seq<bool>, m: int)
    requires
        0 <= m,
        no_overlapping_pairs(zero_sub, m),
    ensures
        backward_blocks(zero_sub, m) == forward_blocks(zero_sub, m, 0).reverse(),
{
    lemma_backward_equals_reversed_forward(zero_sub, m, m);
}

} // verus!
