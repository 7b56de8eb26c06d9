//! One traversal of a side of the book: the pools and the market makers'
//! levels together, in the order of their rates.
use crate::config::Config;
use crate::error::ContractError;
use crate::market_maker::Denoms;
use crate::market_maker::MarketMakerOffer;
use crate::market_maker::Quoter;
use crate::market_makers::pulled;
use crate::market_makers::MakerIter;
use crate::market_makers::MarketMakers;
use crate::math::invert;
use crate::math::inverse_of;
use crate::merge::goes_first;
use crate::merge::pair_rate;
use crate::merge::pairs_ordered;
use crate::merge::EitherOrBoth;
use crate::pool::lists_all;
use crate::pool::pair_listed;
use crate::pool::Pool;
use crate::price::Side;
use crate::store::Book;
use crate::tick::Tick;
use vstd::prelude::*;

verus! {

/// What a traversal is built from: the market makers, the denominations and
/// the tick of a pair.
#[derive(Clone, Debug, PartialEq)]
pub struct SwapIter {
    pub market_makers: MarketMakers,
    pub denoms: Denoms,
    pub tick: Tick,
}

/// What is known of the market makers' next group of levels.
#[derive(Clone, Debug, PartialEq)]
pub enum Ahead {
    /// The market makers have to be asked.
    Unread,
    /// The next group, all at one rate.
    Group(Vec<MarketMakerOffer>),
    /// The market makers have no more levels.
    Spent,
}

/// A traversal in progress: the pools still to come, and the market makers'
/// reading. It is built for one pass and cannot be replayed.
#[derive(Clone, Debug, PartialEq)]
pub struct Traversal {
    pub side: Side,
    pub pools: Vec<EitherOrBoth<Pool, Pool>>,
    pub makers: MakerIter,
    pub ahead: Ahead,
}

/// The rate of a pair of pools.
pub fn rate_of_pair(pair: &EitherOrBoth<Pool, Pool>) -> (r: u128)
    ensures
        r == pair_rate(*pair),
{
    match pair {
        EitherOrBoth::Left(l) => l.rate,
        EitherOrBoth::Right(r) => r.rate,
        EitherOrBoth::Both(l, _) => l.rate,
    }
}

/// The total of a pair of pools, where it fits 128 bits.
pub open spec fn pair_total(pair: EitherOrBoth<Pool, Pool>) -> nat {
    match pair {
        EitherOrBoth::Left(l) => l.total(),
        EitherOrBoth::Right(r) => r.total(),
        EitherOrBoth::Both(l, r) => l.total() + r.total(),
    }
}

/// The total of a group of market makers' levels.
pub open spec fn group_total(group: Seq<MarketMakerOffer>) -> nat
    decreases group.len(),
{
    if group.len() == 0 {
        0
    } else {
        group_total(group.drop_last()) + group.last().total as nat
    }
}

/// The rate of a level: that of its pools, or of its market makers' group,
/// which tie where both are there.
pub open spec fn level_rate(level: EitherOrBoth<EitherOrBoth<Pool, Pool>, Vec<MarketMakerOffer>>) -> u128
    recommends
        level matches EitherOrBoth::Right(g) ==> g.len() > 0,
{
    match level {
        EitherOrBoth::Left(pair) => pair_rate(pair),
        EitherOrBoth::Right(group) => group[0].rate,
        EitherOrBoth::Both(pair, _) => pair_rate(pair),
    }
}

/// The total that a level offers: its pools and its market makers together.
pub open spec fn level_total(level: EitherOrBoth<EitherOrBoth<Pool, Pool>, Vec<MarketMakerOffer>>) -> nat {
    match level {
        EitherOrBoth::Left(pair) => pair_total(pair),
        EitherOrBoth::Right(group) => group_total(group@),
        EitherOrBoth::Both(pair, group) => pair_total(pair) + group_total(group@),
    }
}

/// Adds up the totals of a pair of pools; nothing where the sum leaves 128 bits.
pub fn total_of_pair(pair: &EitherOrBoth<Pool, Pool>) -> (r: Option<u128>)
    ensures
        r == (if pair_total(*pair) <= u128::MAX {
            Some(pair_total(*pair) as u128)
        } else {
            None
        }),
{
    match pair {
        EitherOrBoth::Left(l) => l.total_amount(),
        EitherOrBoth::Right(r) => r.total_amount(),
        EitherOrBoth::Both(l, r) => match (l.total_amount(), r.total_amount()) {
            (Some(a), Some(b)) => a.checked_add(b),
            _ => None,
        },
    }
}

/// Adds up the totals of a group; nothing where the sum leaves 128 bits.
pub fn total_of_group(group: &Vec<MarketMakerOffer>) -> (r: Option<u128>)
    ensures
        r == (if group_total(group@) <= u128::MAX {
            Some(group_total(group@) as u128)
        } else {
            None
        }),
{
    let mut sum: u128 = 0;
    let mut i: usize = 0;
    proof {
        assert(group@.take(0).len() == 0);
    }
    while i < group.len()
        invariant
            0 <= i <= group.len(),
            sum == group_total(group@.take(i as int)),
        decreases group.len() - i,
    {
        proof {
            assert(group@.take(i + 1).drop_last() =~= group@.take(i as int));
            assert(group@.take(i + 1).last() == group@[i as int]);
            lemma_group_total_grows(group@, i + 1);
        }
        sum = match sum.checked_add(group[i].total) {
            Some(sum) => sum,
            None => {
                return None;
            },
        };
        i += 1;
    }
    proof {
        assert(group@.take(i as int) =~= group@);
    }
    Some(sum)
}

/// The total of the first levels of a group is not more than that of all.
pub proof fn lemma_group_total_grows(group: Seq<MarketMakerOffer>, n: int)
    requires
        0 <= n <= group.len(),
    ensures
        group_total(group.take(n)) <= group_total(group),
    decreases group.len() - n,
{
    if n < group.len() {
        lemma_group_total_grows(group, n + 1);
        assert(group.take(n + 1).drop_last() =~= group.take(n));
    } else {
        assert(group.take(n) =~= group);
    }
}

/// The rate of a level.
pub fn rate_of_level(level: &EitherOrBoth<EitherOrBoth<Pool, Pool>, Vec<MarketMakerOffer>>) -> (r: u128)
    requires
        level matches EitherOrBoth::Right(g) ==> g.len() > 0,
    ensures
        r == level_rate(*level),
{
    match level {
        EitherOrBoth::Left(pair) => rate_of_pair(pair),
        EitherOrBoth::Right(group) => group[0].rate,
        EitherOrBoth::Both(pair, _) => rate_of_pair(pair),
    }
}

/// The total that a level offers; nothing where it leaves 128 bits.
pub fn total_of_level(level: &EitherOrBoth<EitherOrBoth<Pool, Pool>, Vec<MarketMakerOffer>>) -> (r: Option<u128>)
    ensures
        r == (if level_total(*level) <= u128::MAX {
            Some(level_total(*level) as u128)
        } else {
            None
        }),
{
    match level {
        EitherOrBoth::Left(pair) => total_of_pair(pair),
        EitherOrBoth::Right(group) => total_of_group(group),
        EitherOrBoth::Both(pair, group) => match (total_of_pair(pair), total_of_group(group)) {
            (Some(a), Some(b)) => a.checked_add(b),
            _ => None,
        },
    }
}

/// The price that an offer pays at a level, in units offered for one unit
/// returned: the level's rate on the base side, the inverse of its rate on
/// the quote side. A rate of zero has no inverse.
pub open spec fn price_paid(side: Side, rate: u128) -> Option<u128> {
    match side {
        Side::Base => Some(rate),
        Side::Quote => if rate == 0 {
            None
        } else {
            Some(inverse_of(rate as nat) as u128)
        },
    }
}

/// Whether the price paid at a level of a side is within a limit.
pub fn within_limit(side: &Side, rate: u128, limit: u128) -> (r: bool)
    ensures
        r == (price_paid(*side, rate) matches Some(paid) && paid <= limit),
{
    match side {
        Side::Base => rate <= limit,
        Side::Quote => match invert(rate) {
            Some(paid) => paid <= limit,
            None => false,
        },
    }
}

impl SwapIter {
    pub fn new(config: &Config) -> (r: Self)
        ensures
            r.tick == config.tick,
    {
        Self {
            market_makers: config.market_makers.clone(),
            denoms: config.denoms.clone(),
            tick: config.tick,
        }
    }

    /// Starts a traversal of a side: the listed pools are loaded in the order
    /// of the side, and the market makers are set up to be asked as the
    /// traversal goes. Fails where the book's markers cannot be read.
    pub fn iter(&self, book: &Book, side: &Side, oracle: Option<u128>) -> (r: Result<Traversal, ContractError>)
        ensures
            r is Ok <==> Pool::readable(*book, *side, oracle),
            r matches Err(e) ==> e matches ContractError::Std || e matches ContractError::Oracle,
            r matches Ok(t) ==> {
                &&& t.wf()
                &&& t.side == *side
                &&& t.ahead is Unread
                &&& pairs_ordered(t.pools@, *side)
                &&& forall|k: int| 0 <= k < t.pools.len() ==> pair_listed(*book, *side, oracle, #[trigger] t.pools[k])
                &&& lists_all(*book, *side, t.pools@)
            },
    {
        let pools = match Pool::iter(book, side, oracle) {
            Ok(pools) => pools,
            Err(e) => {
                return Err(e);
            },
        };
        let makers = self.market_makers.iter(&self.denoms, &self.tick, side);
        Ok(Traversal { side: *side, pools, makers, ahead: Ahead::Unread })
    }
}

/// Whether a traversal is another one with the market makers' next group
/// made known: where it was not known, the market makers were pulled, and
/// what they gave is held ahead; a group that was known is kept.
pub open spec fn primed(before: Traversal, after: Traversal) -> bool {
    &&& after.wf()
    &&& after.side == before.side
    &&& after.pools == before.pools
    &&& !(after.ahead is Unread)
    &&& if before.ahead is Unread {
        match after.ahead {
            Ahead::Group(group) => pulled(before.makers, after.makers, Some(group)),
            _ => pulled(before.makers, after.makers, None),
        }
    } else {
        after == before
    }
}

/// Whether a traversal is another one with its next level taken: the better
/// of the next pair of pools and the group held ahead, or both where they
/// tie; the pools alone once the market makers are spent.
pub open spec fn taken(before: Traversal, after: Traversal, r: Option<EitherOrBoth<EitherOrBoth<Pool, Pool>, Vec<MarketMakerOffer>>>) -> bool {
    &&& after.wf()
    &&& after.side == before.side
    &&& after.makers == before.makers
    &&& match before.ahead {
        Ahead::Group(g) => if before.pools.len() == 0 || goes_first(
            before.side,
            g[0].rate,
            pair_rate(before.pools[0]),
        ) {
            &&& r == Some(EitherOrBoth::<EitherOrBoth<Pool, Pool>, Vec<MarketMakerOffer>>::Right(g))
            &&& after.pools == before.pools
            &&& after.ahead is Unread
        } else if goes_first(before.side, pair_rate(before.pools[0]), g[0].rate) {
            &&& r == Some(
                EitherOrBoth::<EitherOrBoth<Pool, Pool>, Vec<MarketMakerOffer>>::Left(before.pools[0]),
            )
            &&& after.pools@ == before.pools@.drop_first()
            &&& after.ahead == before.ahead
        } else {
            &&& r == Some(
                EitherOrBoth::<EitherOrBoth<Pool, Pool>, Vec<MarketMakerOffer>>::Both(
                    before.pools[0],
                    g,
                ),
            )
            &&& after.pools@ == before.pools@.drop_first()
            &&& after.ahead is Unread
        },
        _ => if before.pools.len() == 0 {
            r is None && after.pools == before.pools && after.ahead is Spent
        } else {
            &&& r == Some(
                EitherOrBoth::<EitherOrBoth<Pool, Pool>, Vec<MarketMakerOffer>>::Left(before.pools[0]),
            )
            &&& after.pools@ == before.pools@.drop_first()
            &&& after.ahead is Spent
        },
    }
}

/// Whether a traversal is another one after one pull that gave `r`: the
/// market makers' next group made known, then the next level taken.
pub open spec fn stepped(before: Traversal, after: Traversal, r: Option<EitherOrBoth<EitherOrBoth<Pool, Pool>, Vec<MarketMakerOffer>>>) -> bool {
    exists|mid: Traversal| #[trigger] primed(before, mid) && taken(mid, after, r)
}

/// Whether a run of traversals is what a traversal goes through as the given
/// levels are pulled from it, one after the other.
pub open spec fn walked(states: Seq<Traversal>, levels: Seq<EitherOrBoth<EitherOrBoth<Pool, Pool>, Vec<MarketMakerOffer>>>) -> bool {
    &&& states.len() == levels.len() + 1
    &&& forall|k: int| 0 <= k < levels.len() ==> stepped(states[k], #[trigger] states[k + 1], Some(levels[k]))
}

/// Whether a level has a rate: a group of market makers' levels is not empty.
pub open spec fn level_sound(level: EitherOrBoth<EitherOrBoth<Pool, Pool>, Vec<MarketMakerOffer>>) -> bool {
    match level {
        EitherOrBoth::Left(_) => true,
        EitherOrBoth::Right(group) => group.len() > 0,
        EitherOrBoth::Both(_, group) => group.len() > 0,
    }
}

impl Traversal {
    /// Whether the reading of the market makers is intact and a group that
    /// is held ahead is not empty.
    pub open spec fn wf(self) -> bool {
        &&& self.makers.wf()
        &&& self.makers.side == self.side
        &&& self.ahead matches Ahead::Group(g) ==> g.len() > 0
    }

    /// Takes the next level once the market makers' next group is known: the
    /// better of the next pair of pools and the group, or both where they
    /// tie. A group that is taken leaves the market makers to be asked again.
    pub fn take_next(&mut self) -> (r: Option<EitherOrBoth<EitherOrBoth<Pool, Pool>, Vec<MarketMakerOffer>>>)
        requires
            old(self).wf(),
            !(old(self).ahead is Unread),
        ensures
            taken(*old(self), *final(self), r),
    {
        let mut ahead = Ahead::Spent;
        std::mem::swap(&mut self.ahead, &mut ahead);
        match ahead {
            Ahead::Group(group) => {
                if self.pools.len() == 0 {
                    self.ahead = Ahead::Unread;
                    return Some(EitherOrBoth::Right(group));
                }
                let pool_rate: u128 = rate_of_pair(&self.pools[0]);
                let group_rate: u128 = group[0].rate;
                let group_first = match self.side {
                    Side::Base => group_rate < pool_rate,
                    Side::Quote => group_rate > pool_rate,
                };
                if group_first {
                    self.ahead = Ahead::Unread;
                    Some(EitherOrBoth::Right(group))
                } else if group_rate == pool_rate {
                    let pair = self.pools.remove(0);
                    self.ahead = Ahead::Unread;
                    Some(EitherOrBoth::Both(pair, group))
                } else {
                    let pair = self.pools.remove(0);
                    self.ahead = Ahead::Group(group);
                    Some(EitherOrBoth::Left(pair))
                }
            },
            _ => {
                if self.pools.len() == 0 {
                    None
                } else {
                    let pair = self.pools.remove(0);
                    Some(EitherOrBoth::Left(pair))
                }
            },
        }
    }

    /// Pulls the next level of the traversal: asks the market makers where
    /// their next group is not known, then takes the better of the next pair
    /// of pools and that group, or both where they tie. Whatever the market
    /// makers answer, a pair that is returned is the first of those still to
    /// come, and nothing is returned only when neither the pools nor the
    /// market makers have a level left.
    pub fn next(&mut self, quoter: &Quoter) -> (r: Option<EitherOrBoth<EitherOrBoth<Pool, Pool>, Vec<MarketMakerOffer>>>)
        requires
            old(self).wf(),
        ensures
            stepped(*old(self), *final(self), r),
            r matches Some(level) ==> level_sound(level),
            final(self).wf(),
            final(self).side == old(self).side,
            !(final(self).ahead is Unread && r is None),
            match r {
                None => old(self).pools.len() == 0 && final(self).pools.len() == 0 && final(self).ahead is Spent,
                Some(EitherOrBoth::Left(pair)) => {
                    &&& old(self).pools.len() > 0
                    &&& pair == old(self).pools[0]
                    &&& final(self).pools@ == old(self).pools@.drop_first()
                    &&& final(self).ahead matches Ahead::Group(g) ==> goes_first(
                        old(self).side,
                        pair_rate(pair),
                        g[0].rate,
                    )
                },
                Some(EitherOrBoth::Right(group)) => {
                    &&& group.len() > 0
                    &&& final(self).pools == old(self).pools
                    &&& final(self).ahead is Unread
                    &&& old(self).pools.len() > 0 ==> goes_first(
                        old(self).side,
                        group[0].rate,
                        pair_rate(old(self).pools[0]),
                    )
                },
                Some(EitherOrBoth::Both(pair, group)) => {
                    &&& old(self).pools.len() > 0
                    &&& pair == old(self).pools[0]
                    &&& final(self).pools@ == old(self).pools@.drop_first()
                    &&& group.len() > 0
                    &&& group[0].rate == pair_rate(pair)
                    &&& final(self).ahead is Unread
                },
            },
    {
        let unread = match &self.ahead {
            Ahead::Unread => true,
            _ => false,
        };
        if unread {
            match self.makers.next(quoter) {
                Some(group) => {
                    self.ahead = Ahead::Group(group);
                },
                None => {
                    self.ahead = Ahead::Spent;
                },
            }
        }
        let ghost mid = *self;
        proof {
            assert(primed(*old(self), mid));
        }
        self.take_next()
    }

    /// What a level comes to under a limit on the price paid: it is passed
    /// on where there is no limit or the price paid at it is within the
    /// limit, and the walk ends at it otherwise.
    pub open spec fn cut_at(side: Side, limit: Option<u128>, pulled: Option<EitherOrBoth<EitherOrBoth<Pool, Pool>, Vec<MarketMakerOffer>>>) -> Option<EitherOrBoth<EitherOrBoth<Pool, Pool>, Vec<MarketMakerOffer>>> {
        match pulled {
            Some(level) => match limit {
                Some(limit) => if price_paid(side, level_rate(level)) matches Some(paid) && paid <= limit {
                    Some(level)
                } else {
                    None
                },
                None => Some(level),
            },
            None => None,
        }
    }

    /// Pulls the next level of the traversal as `next` does, and passes it on
    /// only where the price paid at it is within the limit, if there is one:
    /// the levels come by rising price paid, so a walk under a limit ends at
    /// the first level beyond it.
    pub fn next_within(&mut self, quoter: &Quoter, limit: Option<u128>) -> (r: Option<EitherOrBoth<EitherOrBoth<Pool, Pool>, Vec<MarketMakerOffer>>>)
        requires
            old(self).wf(),
        ensures
            final(self).wf(),
            final(self).side == old(self).side,
            r matches Some(level) ==> level_sound(level),
            exists|pulled: Option<EitherOrBoth<EitherOrBoth<Pool, Pool>, Vec<MarketMakerOffer>>>|
                #[trigger] stepped(*old(self), *final(self), pulled) && r == Traversal::cut_at(
                    old(self).side,
                    limit,
                    pulled,
                ),
    {
        let pulled = self.next(quoter);
        let ghost seen = pulled;
        let r = match pulled {
            Some(level) => match limit {
                Some(limit) => if within_limit(&self.side, rate_of_level(&level), limit) {
                    Some(level)
                } else {
                    None
                },
                None => Some(level),
            },
            None => None,
        };
        proof {
            assert(stepped(*old(self), *self, seen) && r == Traversal::cut_at(old(self).side, limit, seen));
        }
        r
    }
}

} // verus!
