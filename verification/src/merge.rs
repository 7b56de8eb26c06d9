//! The order of rates on each side of the book, and the merge of two
//! sequences of pools that are in that order.
use crate::pool::Pool;
use crate::price::Side;
use itertools::Itertools;
use std::cmp::Ordering;
use vstd::prelude::*;

verus! {

/// An element of the left sequence, of the right one, or one of each where
/// they tie.
#[derive(Clone, Debug, PartialEq)]
pub enum EitherOrBoth<L, R> {
    Left(L),
    Right(R),
    Both(L, R),
}

/// Whether rate `a` is strictly better than rate `b` on a side: lower on the
/// base side, higher on the quote side.
pub open spec fn goes_first(side: Side, a: u128, b: u128) -> bool {
    match side {
        Side::Base => a < b,
        Side::Quote => a > b,
    }
}

/// Whether rate `a` may stand before rate `b` in a traversal of a side.
pub open spec fn not_after(side: Side, a: u128, b: u128) -> bool {
    match side {
        Side::Base => a <= b,
        Side::Quote => a >= b,
    }
}

/// Compares two rates in the direction of a side.
pub fn rate_order(side: &Side, a: u128, b: u128) -> (r: Ordering)
    ensures
        (r matches Ordering::Less) == goes_first(*side, a, b),
        (r matches Ordering::Greater) == goes_first(*side, b, a),
        (r matches Ordering::Equal) == (a == b),
{
    match side {
        Side::Base => {
            if a < b {
                Ordering::Less
            } else if a > b {
                Ordering::Greater
            } else {
                Ordering::Equal
            }
        },
        Side::Quote => {
            if a > b {
                Ordering::Less
            } else if a < b {
                Ordering::Greater
            } else {
                Ordering::Equal
            }
        },
    }
}

impl<L, R> EitherOrBoth<L, R> {
    pub open spec fn spec_left(self) -> Option<L> {
        match self {
            EitherOrBoth::Left(l) => Some(l),
            EitherOrBoth::Right(_) => None,
            EitherOrBoth::Both(l, _) => Some(l),
        }
    }

    pub open spec fn spec_right(self) -> Option<R> {
        match self {
            EitherOrBoth::Left(_) => None,
            EitherOrBoth::Right(r) => Some(r),
            EitherOrBoth::Both(_, r) => Some(r),
        }
    }

    /// The element of the left sequence, if there is one.
    pub fn left(self) -> (r: Option<L>)
        ensures
            r == self.spec_left(),
    {
        match self {
            EitherOrBoth::Left(l) => Some(l),
            EitherOrBoth::Right(_) => None,
            EitherOrBoth::Both(l, _) => Some(l),
        }
    }

    /// The element of the right sequence, if there is one.
    pub fn right(self) -> (r: Option<R>)
        ensures
            r == self.spec_right(),
    {
        match self {
            EitherOrBoth::Left(_) => None,
            EitherOrBoth::Right(r) => Some(r),
            EitherOrBoth::Both(_, r) => Some(r),
        }
    }
}

/// The rate of a merged pair of pools: that of either, which tie where both
/// are there.
pub open spec fn pair_rate(pair: EitherOrBoth<Pool, Pool>) -> u128 {
    match pair {
        EitherOrBoth::Left(l) => l.rate,
        EitherOrBoth::Right(r) => r.rate,
        EitherOrBoth::Both(l, _) => l.rate,
    }
}

/// The merge of two sequences of pools in the direction of a side: the better
/// head goes first, and heads that tie go together.
pub open spec fn merged(left: Seq<Pool>, right: Seq<Pool>, side: Side) -> Seq<EitherOrBoth<Pool, Pool>>
    decreases left.len() + right.len(),
{
    if left.len() == 0 && right.len() == 0 {
        Seq::empty()
    } else if left.len() == 0 {
        seq![EitherOrBoth::Right(right[0])] + merged(left, right.drop_first(), side)
    } else if right.len() == 0 {
        seq![EitherOrBoth::Left(left[0])] + merged(left.drop_first(), right, side)
    } else if goes_first(side, left[0].rate, right[0].rate) {
        seq![EitherOrBoth::Left(left[0])] + merged(left.drop_first(), right, side)
    } else if goes_first(side, right[0].rate, left[0].rate) {
        seq![EitherOrBoth::Right(right[0])] + merged(left, right.drop_first(), side)
    } else {
        seq![EitherOrBoth::Both(left[0], right[0])] + merged(
            left.drop_first(),
            right.drop_first(),
            side,
        )
    }
}

/// Calls `itertools::Itertools::merge_join_by` on the two sequences, with
/// `rate_order` on the pools' rates as the comparison, and collects what it
/// yields: the element that compares less goes first, as `Left` or `Right`,
/// and elements that compare equal go together as `Both`.
#[verifier::external_body]
pub(crate) fn merge_join(left: Vec<Pool>, right: Vec<Pool>, side: Side) -> (r: Vec<EitherOrBoth<Pool, Pool>>)
    ensures
        r@ == merged(left@, right@, side),
{
    left.into_iter().merge_join_by(right, |l, r| rate_order(&side, l.rate, r.rate)).map(
        |x| match x {
            itertools::EitherOrBoth::Left(l) => EitherOrBoth::Left(l),
            itertools::EitherOrBoth::Right(r) => EitherOrBoth::Right(r),
            itertools::EitherOrBoth::Both(l, r) => EitherOrBoth::Both(l, r),
        },
    ).collect()
}

/// Whether pools stand in the order of a side's traversal.
pub open spec fn pools_ordered(pools: Seq<Pool>, side: Side) -> bool {
    forall|i: int, j: int|
        0 <= i < j < pools.len() ==> not_after(side, (#[trigger] pools[i]).rate, (#[trigger] pools[j]).rate)
}

/// Whether merged pairs stand in the order of a side's traversal.
pub open spec fn pairs_ordered(pairs: Seq<EitherOrBoth<Pool, Pool>>, side: Side) -> bool {
    forall|i: int, j: int|
        0 <= i < j < pairs.len() ==> not_after(
            side,
            pair_rate(#[trigger] pairs[i]),
            pair_rate(#[trigger] pairs[j]),
        )
}

/// Whether a rate may stand before every pool of a sequence.
pub open spec fn bounds_pools(rate: u128, pools: Seq<Pool>, side: Side) -> bool {
    forall|i: int| 0 <= i < pools.len() ==> not_after(side, rate, (#[trigger] pools[i]).rate)
}

/// A rate that may stand before all of two sequences may stand before all of
/// their merge.
pub proof fn lemma_merged_bounded(rate: u128, left: Seq<Pool>, right: Seq<Pool>, side: Side)
    requires
        bounds_pools(rate, left, side),
        bounds_pools(rate, right, side),
    ensures
        forall|i: int|
            0 <= i < merged(left, right, side).len() ==> not_after(
                side,
                rate,
                pair_rate(#[trigger] merged(left, right, side)[i]),
            ),
    decreases left.len() + right.len(),
{
    let m = merged(left, right, side);
    if left.len() == 0 && right.len() == 0 {
    } else {
        let (l2, r2) = if left.len() == 0 {
            (left, right.drop_first())
        } else if right.len() == 0 {
            (left.drop_first(), right)
        } else if goes_first(side, left[0].rate, right[0].rate) {
            (left.drop_first(), right)
        } else if goes_first(side, right[0].rate, left[0].rate) {
            (left, right.drop_first())
        } else {
            (left.drop_first(), right.drop_first())
        };
        assert forall|i: int| 0 <= i < l2.len() implies not_after(side, rate, (#[trigger] l2[i]).rate) by {
            if l2.len() < left.len() {
                assert(l2[i] == left[i + 1]);
            }
        }
        assert forall|i: int| 0 <= i < r2.len() implies not_after(side, rate, (#[trigger] r2[i]).rate) by {
            if r2.len() < right.len() {
                assert(r2[i] == right[i + 1]);
            }
        }
        lemma_merged_bounded(rate, l2, r2, side);
        let rest = merged(l2, r2, side);
        assert(m.len() == rest.len() + 1);
        assert forall|i: int| 0 <= i < m.len() implies not_after(side, rate, pair_rate(#[trigger] m[i])) by {
            if i > 0 {
                assert(m[i] == rest[i - 1]);
            } else {
                if left.len() > 0 {
                    assert(not_after(side, rate, left[0].rate));
                }
                if right.len() > 0 {
                    assert(not_after(side, rate, right[0].rate));
                }
            }
        }
    }
}

/// The merge of two sequences that are each in the order of a side is in
/// that order.
pub proof fn lemma_merged_ordered(left: Seq<Pool>, right: Seq<Pool>, side: Side)
    requires
        pools_ordered(left, side),
        pools_ordered(right, side),
    ensures
        pairs_ordered(merged(left, right, side), side),
    decreases left.len() + right.len(),
{
    let m = merged(left, right, side);
    if left.len() == 0 && right.len() == 0 {
    } else {
        let (l2, r2) = if left.len() == 0 {
            (left, right.drop_first())
        } else if right.len() == 0 {
            (left.drop_first(), right)
        } else if goes_first(side, left[0].rate, right[0].rate) {
            (left.drop_first(), right)
        } else if goes_first(side, right[0].rate, left[0].rate) {
            (left, right.drop_first())
        } else {
            (left.drop_first(), right.drop_first())
        };
        let head = pair_rate(m[0]);
        assert forall|i: int, j: int| 0 <= i < j < l2.len() implies not_after(
            side,
            (#[trigger] l2[i]).rate,
            (#[trigger] l2[j]).rate,
        ) by {
            if l2.len() < left.len() {
                assert(l2[i] == left[i + 1]);
                assert(l2[j] == left[j + 1]);
            }
        }
        assert forall|i: int, j: int| 0 <= i < j < r2.len() implies not_after(
            side,
            (#[trigger] r2[i]).rate,
            (#[trigger] r2[j]).rate,
        ) by {
            if r2.len() < right.len() {
                assert(r2[i] == right[i + 1]);
                assert(r2[j] == right[j + 1]);
            }
        }
        lemma_merged_ordered(l2, r2, side);
        assert forall|i: int| 0 <= i < l2.len() implies not_after(side, head, (#[trigger] l2[i]).rate) by {
            if l2.len() < left.len() {
                assert(l2[i] == left[i + 1]);
                assert(not_after(side, left[0].rate, left[i + 1].rate));
            } else {
                assert(not_after(side, left[0].rate, left[i].rate) || i == 0);
            }
        }
        assert forall|i: int| 0 <= i < r2.len() implies not_after(side, head, (#[trigger] r2[i]).rate) by {
            if r2.len() < right.len() {
                assert(r2[i] == right[i + 1]);
                assert(not_after(side, right[0].rate, right[i + 1].rate));
            } else {
                assert(not_after(side, right[0].rate, right[i].rate) || i == 0);
            }
        }
        lemma_merged_bounded(head, l2, r2, side);
        let rest = merged(l2, r2, side);
        assert(m.len() == rest.len() + 1);
        assert forall|i: int, j: int| 0 <= i < j < m.len() implies not_after(
            side,
            pair_rate(#[trigger] m[i]),
            pair_rate(#[trigger] m[j]),
        ) by {
            assert(m[j] == rest[j - 1]);
            if i > 0 {
                assert(m[i] == rest[i - 1]);
            }
        }
    }
}

/// Every pool of the two sequences is held by a pair of their merge, and
/// every pair holds only pools of the two sequences: a left one from the
/// left sequence, a right one from the right.
pub proof fn lemma_merged_members(left: Seq<Pool>, right: Seq<Pool>, side: Side)
    ensures
        forall|i: int| 0 <= i < left.len() ==> exists|k: int| 0 <= k < merged(left, right, side).len()
                && (#[trigger] merged(left, right, side)[k]).spec_left() == Some(#[trigger] left[i]),
        forall|i: int| 0 <= i < right.len() ==> exists|k: int| 0 <= k < merged(left, right, side).len()
                && (#[trigger] merged(left, right, side)[k]).spec_right() == Some(#[trigger] right[i]),
        forall|k: int| 0 <= k < merged(left, right, side).len() ==> {
            &&& (#[trigger] merged(left, right, side)[k]).spec_left() matches Some(p) ==> left.contains(p)
            &&& merged(left, right, side)[k].spec_right() matches Some(p) ==> right.contains(p)
            &&& merged(left, right, side)[k] matches EitherOrBoth::Both(l, r) ==> l.rate == r.rate
        },
    decreases left.len() + right.len(),
{
    let m = merged(left, right, side);
    if left.len() == 0 && right.len() == 0 {
    } else {
        let (l2, r2) = if left.len() == 0 {
            (left, right.drop_first())
        } else if right.len() == 0 {
            (left.drop_first(), right)
        } else if goes_first(side, left[0].rate, right[0].rate) {
            (left.drop_first(), right)
        } else if goes_first(side, right[0].rate, left[0].rate) {
            (left, right.drop_first())
        } else {
            (left.drop_first(), right.drop_first())
        };
        lemma_merged_members(l2, r2, side);
        let rest = merged(l2, r2, side);
        assert(m.len() == rest.len() + 1);
        assert forall|i: int| 0 <= i < left.len() implies exists|k: int| 0 <= k < m.len() && (#[trigger] m[k]).spec_left() == Some(#[trigger] left[i]) by {
            if l2.len() < left.len() {
                if i == 0 {
                    assert(m[0].spec_left() == Some(left[0]));
                } else {
                    assert(l2[i - 1] == left[i]);
                    let k = choose|k: int| 0 <= k < rest.len() && (#[trigger] rest[k]).spec_left() == Some(l2[i - 1]);
                    assert(m[k + 1] == rest[k]);
                }
            } else {
                assert(l2[i] == left[i]);
                let k = choose|k: int| 0 <= k < rest.len() && (#[trigger] rest[k]).spec_left() == Some(l2[i]);
                assert(m[k + 1] == rest[k]);
            }
        }
        assert forall|i: int| 0 <= i < right.len() implies exists|k: int| 0 <= k < m.len() && (#[trigger] m[k]).spec_right() == Some(#[trigger] right[i]) by {
            if r2.len() < right.len() {
                if i == 0 {
                    assert(m[0].spec_right() == Some(right[0]));
                } else {
                    assert(r2[i - 1] == right[i]);
                    let k = choose|k: int| 0 <= k < rest.len() && (#[trigger] rest[k]).spec_right() == Some(r2[i - 1]);
                    assert(m[k + 1] == rest[k]);
                }
            } else {
                assert(r2[i] == right[i]);
                let k = choose|k: int| 0 <= k < rest.len() && (#[trigger] rest[k]).spec_right() == Some(r2[i]);
                assert(m[k + 1] == rest[k]);
            }
        }
        assert forall|k: int| 0 <= k < m.len() implies {
            &&& (#[trigger] m[k]).spec_left() matches Some(p) ==> left.contains(p)
            &&& m[k].spec_right() matches Some(p) ==> right.contains(p)
            &&& m[k] matches EitherOrBoth::Both(l, r) ==> l.rate == r.rate
        } by {
            if k > 0 {
                assert(m[k] == rest[k - 1]);
                if let Some(p) = m[k].spec_left() {
                    assert(l2.contains(p));
                    let i = choose|i: int| 0 <= i < l2.len() && l2[i] == p;
                    if l2.len() < left.len() {
                        assert(left[i + 1] == p);
                    } else {
                        assert(left[i] == p);
                    }
                }
                if let Some(p) = m[k].spec_right() {
                    assert(r2.contains(p));
                    let i = choose|i: int| 0 <= i < r2.len() && r2[i] == p;
                    if r2.len() < right.len() {
                        assert(right[i + 1] == p);
                    } else {
                        assert(right[i] == p);
                    }
                }
            } else {
                if left.len() > 0 {
                    assert(left[0] == left[0]);
                }
                if right.len() > 0 {
                    assert(right[0] == right[0]);
                }
            }
        }
    }
}

} // verus!
