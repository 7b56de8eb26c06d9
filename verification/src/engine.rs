//! The fill engine: pooled bids at one price, filled in proportion.
//!
//! The engine is `rujira_rs::bid_pool`. Its pools and bids are carried as they
//! are; what this library reads of them is named here, and each operation of
//! the engine that the library calls is given the contract that the engine's
//! source shows.
use crate::math::ceil_of;
use crate::math::inverse_of;
use crate::math::ratio_of;
use crate::math::value_floor_of;
use crate::math::DECIMAL_ONE;
use rujira_rs::bid_pool::BidPoolError;
use rujira_rs::bid_pool::Pool as EnginePool;
use rujira_rs::bid_pool::Bid;
use rujira_rs::bid_pool::SumSnapshot;
use rujira_rs::DecimalScaled;
use vstd::prelude::*;

verus! {

#[verifier::external_type_specification]
#[verifier::external_body]
pub struct ExEnginePool(EnginePool);

#[verifier::external_type_specification]
#[verifier::external_body]
pub struct ExEngineBid(rujira_rs::bid_pool::Bid);

#[verifier::external_type_specification]
#[verifier::external_body]
pub struct ExSumSnapshot(rujira_rs::bid_pool::SumSnapshot);

#[verifier::external_type_specification]
#[verifier::external_body]
pub struct ExDecimalScaled(rujira_rs::DecimalScaled);

/// The total of the bids that rest in an engine pool.
pub uninterp spec fn pool_total(pool: EnginePool) -> nat;

/// The number of times an engine pool has been emptied by a fill.
pub uninterp spec fn pool_epoch(pool: EnginePool) -> nat;

/// The resting amount that a bid records.
pub uninterp spec fn bid_amount(bid: Bid) -> nat;

/// The filled amount that a bid records and that has not been claimed.
pub uninterp spec fn bid_filled(bid: Bid) -> nat;

/// The epoch of its pool that a bid was last brought up to.
pub uninterp spec fn bid_epoch(bid: Bid) -> nat;

/// Whether the product that a bid recorded of its pool, the scale of its
/// amount, is zero.
pub uninterp spec fn bid_scaled_out(bid: Bid) -> bool;

/// Whether a bid can be brought up to date with a pool: one that still holds
/// an amount at a scale other than zero must not come from a later epoch than
/// the pool's.
pub open spec fn syncs(pool: EnginePool, bid: Bid) -> bool {
    bid_amount(bid) == 0 || bid_scaled_out(bid) || bid_epoch(bid) <= pool_epoch(pool)
}

/// The epoch that a snapshot of a pool's running sum belongs to.
pub uninterp spec fn snapshot_epoch(snapshot: SumSnapshot) -> nat;

/// The running sum that a snapshot holds.
pub uninterp spec fn snapshot_sum(snapshot: SumSnapshot) -> DecimalScaled;

/// A bid brought up to date with its pool, given the running sum recorded
/// for the bid's epoch.
pub uninterp spec fn synced_bid(pool: EnginePool, bid: Bid, sum: Option<DecimalScaled>) -> Bid;

/// The running sum of an engine pool: what it has paid per unit of bid in
/// its epoch, at its scale.
pub uninterp spec fn pool_sum(pool: EnginePool) -> DecimalScaled;

/// Whether a bid records the product, the running sum and the epoch that a
/// pool has now: it has been made in the pool, or brought up to date with
/// it, and the pool has not been filled since.
pub uninterp spec fn bid_current(pool: EnginePool, bid: Bid) -> bool;

/// Whether the engine's arithmetic for bringing a bid up to date with a
/// pool, by a running sum, stays in its range: the sum is not below the one
/// that the bid recorded, and the fill and what is left fit in 256 bits.
pub uninterp spec fn sync_defined(pool: EnginePool, bid: Bid, sum: Option<DecimalScaled>) -> bool;

/// Whether a bid can be handed to the engine to be brought up to date with
/// a pool by a running sum: the engine's arithmetic stays in its range, or
/// there is nothing to work out, the bid being current with the pool and
/// the sum none or the pool's own.
pub open spec fn can_sync(pool: EnginePool, bid: Bid, sum: Option<DecimalScaled>) -> bool {
    sync_defined(pool, bid, sum) || (bid_current(pool, bid) && (sum is None || sum == Some(pool_sum(pool))))
}

/// The largest amount that the engine's 256-bit counters hold.
pub open spec fn wide_max() -> nat {
    0xffff_ffff_ffff_ffff_ffff_ffff_ffff_ffff_ffff_ffff_ffff_ffff_ffff_ffff_ffff_ffffnat
}

/// Why the engine refused an operation.
#[derive(Clone, Copy, Debug, PartialEq, Eq, Structural)]
pub enum FillError {
    /// More was asked back than the bid holds.
    Withdraw,
    /// The pool is scaled too far to share out a fill.
    Distribution,
    /// A counter would leave its range.
    Overflow,
}

/// What a fill took and gave.
pub struct Distribution {
    /// The part of the offer that was used.
    pub consumed_offer: u128,
    /// The bids that were given for it.
    pub consumed_bids: u128,
    /// The running sums to record, by epoch.
    pub snapshots: Vec<SumSnapshot>,
}

/// The bids that an offer is worth at a rate, rounded down.
pub open spec fn bids_value_of(offer: nat, rate: nat) -> nat {
    value_floor_of(offer, rate)
}

/// Whether a fill of `offer` at `rate` empties a pool of `total`.
pub open spec fn fills_whole(total: nat, offer: nat, rate: nat) -> bool {
    offer != 0 && total != 0 && bids_value_of(offer, rate) >= total
}

/// Whether a fill of `offer` at `rate` takes only a part of a pool of `total`.
pub open spec fn fills_part(total: nat, offer: nat, rate: nat) -> bool {
    offer != 0 && total != 0 && bids_value_of(offer, rate) < total
}

/// The offer that emptying a pool of `total` at `rate` uses, rounded up.
pub open spec fn whole_fill_cost(total: nat, rate: nat) -> nat {
    ceil_of(ratio_of(total * (DECIMAL_ONE as nat), rate))
}

/// The part of `offer` that a fill at `rate` uses from a pool of `total`.
pub open spec fn consumed_offer_of(total: nat, offer: nat, rate: nat) -> nat {
    if fills_whole(total, offer, rate) {
        whole_fill_cost(total, rate)
    } else if fills_part(total, offer, rate) {
        offer
    } else {
        0
    }
}

/// The bids that a fill of `offer` at `rate` gives from a pool of `total`.
pub open spec fn consumed_bids_of(total: nat, offer: nat, rate: nat) -> nat {
    if fills_whole(total, offer, rate) {
        total
    } else if fills_part(total, offer, rate) {
        bids_value_of(offer, rate)
    } else {
        0
    }
}

/// An offer that is worth a whole level exactly, at a price whose inverse is
/// exact, empties the level and is used up: the fill takes all of the level
/// for all of the offer. `price` is what one unit of the level costs, and
/// the fill is made at its inverse.
pub proof fn lemma_exact_offer_fills_whole(total: nat, offer: nat, price: nat)
    requires
        total != 0,
        offer != 0,
        inverse_of(price) * price == (DECIMAL_ONE as nat) * (DECIMAL_ONE as nat),
        offer * (DECIMAL_ONE as nat) == total * price,
    ensures
        fills_whole(total, offer, inverse_of(price)),
        consumed_offer_of(total, offer, inverse_of(price)) == offer,
        consumed_bids_of(total, offer, inverse_of(price)) == total,
{
    let one = DECIMAL_ONE as nat;
    let rate = inverse_of(price);
    assert(rate != 0 && price != 0) by (nonlinear_arith)
        requires
            rate * price == one * one,
            one == 1_000_000_000_000_000_000,
    ;
    assert(offer * rate == total * one) by (nonlinear_arith)
        requires
            rate * price == one * one,
            offer * one == total * price,
            price != 0,
            one != 0,
    ;
    assert(offer * rate / one == total) by (nonlinear_arith)
        requires
            offer * rate == total * one,
            one != 0,
    ;
    assert(value_floor_of(offer, rate) == total);
    assert(total * one * one / rate == total * price) by (nonlinear_arith)
        requires
            rate * price == one * one,
            rate != 0,
    ;
    assert(ratio_of(total * one, rate) == total * price);
    assert(total * price != 0 && (total * price - 1) / (one as int) == offer - 1) by (nonlinear_arith)
        requires
            offer * one == total * price,
            offer != 0,
            one == 1_000_000_000_000_000_000,
    ;
    assert(ceil_of(total * price) == offer);
}

/// The engine pool as it is at the start of an epoch: nothing rests in it,
/// its running sum is zero and its product is one.
pub uninterp spec fn fresh_engine(epoch: nat) -> EnginePool;

/// Calls `rujira_rs::bid_pool::Pool::default`: the pool as it is at the start
/// of its first epoch.
#[verifier::external_body]
pub(crate) fn engine_empty_pool() -> (r: EnginePool)
    ensures
        r == fresh_engine(0),
        pool_total(r) == 0,
        pool_epoch(r) == 0,
{
    EnginePool::default()
}

/// Calls `rujira_rs::bid_pool::Pool::total`: the pool's total, where it fits
/// 128 bits.
#[verifier::external_body]
pub(crate) fn engine_pool_total(pool: &EnginePool) -> (r: Option<u128>)
    ensures
        r == (if pool_total(*pool) <= u128::MAX {
            Some(pool_total(*pool) as u128)
        } else {
            None
        }),
{
    match cosmwasm_std::Uint128::try_from(pool.total()) {
        Ok(v) => Some(v.u128()),
        Err(_) => None,
    }
}

/// Calls `rujira_rs::bid_pool::Pool::is_zero`: whether nothing rests in the pool.
#[verifier::external_body]
pub(crate) fn engine_pool_is_zero(pool: &EnginePool) -> (r: bool)
    ensures
        r == (pool_total(*pool) == 0),
{
    pool.is_zero()
}

/// Calls `rujira_rs::bid_pool::Pool::epoch`.
#[verifier::external_body]
pub(crate) fn engine_pool_epoch(pool: &EnginePool) -> (r: u32)
    ensures
        r == pool_epoch(*pool),
{
    pool.epoch()
}

/// Calls `rujira_rs::bid_pool::Pool::new_bid`: the pool's total grows by the
/// amount, and the new bid holds the amount, nothing filled, in the pool's
/// epoch; it records the pool's product and running sum, which stay as they
/// are. The outside function fails where the total leaves 256 bits.
#[verifier::external_body]
pub(crate) fn engine_new_bid(pool: &mut EnginePool, amount: u128) -> (r: Bid)
    requires
        pool_total(*old(pool)) + amount <= wide_max(),
    ensures
        pool_total(*final(pool)) == pool_total(*old(pool)) + amount,
        pool_epoch(*final(pool)) == pool_epoch(*old(pool)),
        bid_amount(r) == amount,
        bid_filled(r) == 0,
        bid_epoch(r) == pool_epoch(*old(pool)),
        bid_current(*final(pool), r),
        pool_sum(*final(pool)) == pool_sum(*old(pool)),
{
    pool.new_bid(cosmwasm_std::Uint256::from(amount))
}

/// Calls `rujira_rs::bid_pool::Bid::increase`: the bid grows by the amount;
/// the pool's total grows with it unless that leaves 256 bits, which is
/// refused with the bid already grown. Nothing else of the bid or the pool
/// changes. The outside function fails where the bid itself leaves 256 bits.
#[verifier::external_body]
pub(crate) fn engine_increase(bid: &mut Bid, pool: &mut EnginePool, amount: u128) -> (r: Result<(), FillError>)
    requires
        bid_amount(*old(bid)) + amount <= wide_max(),
    ensures
        r.is_ok() <==> pool_total(*old(pool)) + amount <= wide_max(),
        r.is_err() ==> (r matches Err(FillError::Overflow)) && *final(pool) == *old(pool),
        r.is_ok() ==> pool_total(*final(pool)) == pool_total(*old(pool)) + amount,
        pool_epoch(*final(pool)) == pool_epoch(*old(pool)),
        bid_amount(*final(bid)) == bid_amount(*old(bid)) + amount,
        bid_filled(*final(bid)) == bid_filled(*old(bid)),
        bid_epoch(*final(bid)) == bid_epoch(*old(bid)),
        bid_current(*final(pool), *final(bid)) == bid_current(*old(pool), *old(bid)),
        pool_sum(*final(pool)) == pool_sum(*old(pool)),
{
    match bid.increase(pool, cosmwasm_std::Uint256::from(amount)) {
        Ok(_) => Ok(()),
        Err(_) => Err(FillError::Overflow),
    }
}

/// The amount that a retraction takes back: what was asked, or all of the bid.
pub open spec fn retracted_of(held: nat, amount: Option<u128>) -> nat {
    match amount {
        Some(a) => a as nat,
        None => held,
    }
}

/// Calls `rujira_rs::bid_pool::Bid::retract`: takes the amount asked, or all,
/// out of the bid and out of the pool's total, and returns it where it fits
/// 128 bits. More than the bid holds is refused with nothing changed; more
/// than the pool's total is refused with the bid already reduced. Nothing
/// else of the bid or the pool changes.
#[verifier::external_body]
pub(crate) fn engine_retract(bid: &mut Bid, pool: &mut EnginePool, amount: Option<u128>) -> (r: Result<Option<u128>, FillError>)
    ensures
        bid_current(*final(pool), *final(bid)) == bid_current(*old(pool), *old(bid)),
        pool_sum(*final(pool)) == pool_sum(*old(pool)),
        retracted_of(bid_amount(*old(bid)), amount) > bid_amount(*old(bid)) ==> {
            &&& r matches Err(FillError::Withdraw)
            &&& *final(bid) == *old(bid)
            &&& *final(pool) == *old(pool)
        },
        retracted_of(bid_amount(*old(bid)), amount) <= bid_amount(*old(bid)) ==> {
            &&& bid_amount(*final(bid)) == bid_amount(*old(bid)) - retracted_of(bid_amount(*old(bid)), amount)
            &&& bid_filled(*final(bid)) == bid_filled(*old(bid))
            &&& bid_epoch(*final(bid)) == bid_epoch(*old(bid))
            &&& pool_epoch(*final(pool)) == pool_epoch(*old(pool))
            &&& retracted_of(bid_amount(*old(bid)), amount) <= pool_total(*old(pool)) ==> {
                &&& r.is_ok()
                &&& pool_total(*final(pool)) == pool_total(*old(pool)) - retracted_of(bid_amount(*old(bid)), amount)
                &&& r.unwrap().is_some() == (retracted_of(bid_amount(*old(bid)), amount) <= u128::MAX)
                &&& r.unwrap().is_some() ==> r.unwrap().unwrap() == retracted_of(bid_amount(*old(bid)), amount)
            }
            &&& retracted_of(bid_amount(*old(bid)), amount) > pool_total(*old(pool)) ==> {
                &&& r matches Err(FillError::Overflow)
                &&& *final(pool) == *old(pool)
            }
        },
{
    match bid.retract(pool, amount.map(cosmwasm_std::Uint256::from)) {
        Ok(v) => Ok(cosmwasm_std::Uint128::try_from(v).ok().map(|x| x.u128())),
        Err(BidPoolError::WithdrawError { .. }) => Err(FillError::Withdraw),
        Err(BidPoolError::DistributionError { .. }) => Err(
            FillError::Distribution,
        ),
        Err(BidPoolError::Overflow(_)) => Err(FillError::Overflow),
    }
}

/// Calls `rujira_rs::bid_pool::Bid::claim_filled`: hands out what the bid
/// records as filled, where it fits 128 bits, and leaves nothing filled.
/// Nothing else of the bid changes.
#[verifier::external_body]
pub(crate) fn engine_claim(bid: &mut Bid) -> (r: Option<u128>)
    ensures
        r == (if bid_filled(*old(bid)) <= u128::MAX {
            Some(bid_filled(*old(bid)) as u128)
        } else {
            None
        }),
        bid_filled(*final(bid)) == 0,
        bid_amount(*final(bid)) == bid_amount(*old(bid)),
        bid_epoch(*final(bid)) == bid_epoch(*old(bid)),
        forall|pool: EnginePool| #[trigger] bid_current(pool, *final(bid)) == bid_current(pool, *old(bid)),
{
    match cosmwasm_std::Uint128::try_from(bid.claim_filled()) {
        Ok(v) => Some(v.u128()),
        Err(_) => None,
    }
}

/// Calls `rujira_rs::bid_pool::Bid::amount`: the bid's resting amount, where
/// it fits 128 bits.
#[verifier::external_body]
pub(crate) fn engine_bid_amount(bid: &Bid) -> (r: Option<u128>)
    ensures
        r == (if bid_amount(*bid) <= u128::MAX {
            Some(bid_amount(*bid) as u128)
        } else {
            None
        }),
{
    match cosmwasm_std::Uint128::try_from(bid.amount()) {
        Ok(v) => Some(v.u128()),
        Err(_) => None,
    }
}

/// Calls `rujira_rs::bid_pool::Bid::filled`: the bid's unclaimed fill, where
/// it fits 128 bits.
#[verifier::external_body]
pub(crate) fn engine_bid_filled(bid: &Bid) -> (r: Option<u128>)
    ensures
        r == (if bid_filled(*bid) <= u128::MAX {
            Some(bid_filled(*bid) as u128)
        } else {
            None
        }),
{
    match cosmwasm_std::Uint128::try_from(bid.filled()) {
        Ok(v) => Some(v.u128()),
        Err(_) => None,
    }
}

/// Calls `rujira_rs::bid_pool::Bid::is_empty`: whether the bid holds neither
/// a resting amount nor an unclaimed fill.
#[verifier::external_body]
pub(crate) fn engine_bid_is_empty(bid: &Bid) -> (r: bool)
    ensures
        r == (bid_amount(*bid) == 0 && bid_filled(*bid) == 0),
{
    bid.is_empty()
}

/// `Clone::clone` of a `rujira_rs::bid_pool::Bid` gives an equal bid.
pub assume_specification[ <Bid as Clone>::clone ](bid: &Bid) -> (r: Bid)
    ensures
        r == *bid,
;

/// `Clone::clone` of a `rujira_rs::bid_pool::Pool` gives an equal pool.
pub assume_specification[ <EnginePool as Clone>::clone ](pool: &EnginePool) -> (r: EnginePool)
    ensures
        r == *pool,
;

/// `Clone::clone` of a `rujira_rs::bid_pool::SumSnapshot` gives an equal snapshot.
pub assume_specification[ <SumSnapshot as Clone>::clone ](snapshot: &SumSnapshot) -> (r: SumSnapshot)
    ensures
        r == *snapshot,
;

/// Calls `rujira_rs::bid_pool::Pool::sync_bid`: brings a bid up to date with
/// its pool. The bid's new state is named, not stated; it is in the pool's
/// epoch and records the pool's product and running sum, so that it can be
/// brought up to date again. A bid that holds an amount at a scale other
/// than zero and comes from a later epoch than the pool's is refused. The
/// outside function fails on a running sum below the one that the bid
/// recorded and on a fill beyond 256 bits: those inputs are left out.
#[verifier::external_body]
pub(crate) fn engine_sync(pool: &EnginePool, bid: &mut Bid, sum: Option<DecimalScaled>) -> (r: bool)
    requires
        can_sync(*pool, *old(bid), sum),
    ensures
        r == (bid_amount(*old(bid)) == 0 || bid_scaled_out(*old(bid)) || bid_epoch(*old(bid)) <= pool_epoch(*pool)),
        r ==> *final(bid) == synced_bid(*pool, *old(bid), sum),
        r ==> bid_epoch(*final(bid)) == pool_epoch(*pool),
        r ==> bid_current(*pool, *final(bid)),
        r ==> sync_defined(*pool, *final(bid), None),
{
    pool.sync_bid(bid, sum).is_ok()
}

/// Whether the engine refuses to share out an offer that takes a part of a
/// pool at a rate: the pool is scaled so far that the fill would leave its
/// running sum as it is or bring its product to zero.
pub uninterp spec fn fill_refused(pool: EnginePool, offer: nat, rate: nat) -> bool;

/// Calls `rujira_rs::bid_pool::Pool::distribute` with the offer and the rate
/// widened to 256 bits. An empty offer or pool changes nothing. An offer worth
/// the whole pool empties it and leaves it at the start of its next epoch; a
/// smaller one takes
/// its worth out of the total, or is refused, with the total kept, where the
/// pool is scaled too far: whether it is, is named, not stated. The outside
/// function fails where the total or the epoch is at the end of its range.
#[verifier::external_body]
pub(crate) fn engine_distribute(pool: &mut EnginePool, offer: u128, rate: u128) -> (r: Result<Distribution, FillError>)
    requires
        pool_total(*old(pool)) <= u128::MAX,
        pool_epoch(*old(pool)) < u32::MAX,
    ensures
        r.is_err() == (fills_part(pool_total(*old(pool)), offer as nat, rate as nat) && fill_refused(*old(pool), offer as nat, rate as nat)),
        r.is_err() ==> {
            &&& r matches Err(FillError::Distribution)
            &&& pool_total(*final(pool)) == pool_total(*old(pool))
            &&& pool_epoch(*final(pool)) == pool_epoch(*old(pool))
        },
        r.is_ok() ==> {
            &&& r.unwrap().consumed_offer == consumed_offer_of(
                pool_total(*old(pool)),
                offer as nat,
                rate as nat,
            )
            &&& r.unwrap().consumed_bids == consumed_bids_of(
                pool_total(*old(pool)),
                offer as nat,
                rate as nat,
            )
            &&& pool_total(*final(pool)) == pool_total(*old(pool)) - r.unwrap().consumed_bids
            &&& pool_epoch(*final(pool)) == pool_epoch(*old(pool)) + (if fills_whole(
                pool_total(*old(pool)),
                offer as nat,
                rate as nat,
            ) {
                1nat
            } else {
                0nat
            })
            &&& (offer == 0 || pool_total(*old(pool)) == 0) ==> *final(pool) == *old(pool)
                && r.unwrap().snapshots@.len() == 0
            &&& fills_part(pool_total(*old(pool)), offer as nat, rate as nat) ==> {
                &&& r.unwrap().snapshots@.len() == 1
                &&& snapshot_epoch(r.unwrap().snapshots@[0]) == pool_epoch(*old(pool))
            }
            &&& fills_whole(pool_total(*old(pool)), offer as nat, rate as nat) ==> {
                &&& *final(pool) == fresh_engine(pool_epoch(*old(pool)) + 1)
                &&& r.unwrap().snapshots@.len() == 2
                &&& snapshot_epoch(r.unwrap().snapshots@[0]) == pool_epoch(*old(pool))
                &&& snapshot_epoch(r.unwrap().snapshots@[1]) == pool_epoch(*old(pool)) + 1
            }
        },
{
    let rate = cosmwasm_std::Decimal256::from(cosmwasm_std::Decimal::raw(rate));
    match pool.distribute(cosmwasm_std::Uint256::from(offer), &rate) {
        Ok(res) => Ok(Distribution {
            consumed_offer: cosmwasm_std::Uint128::try_from(res.consumed_offer).unwrap().u128(),
            consumed_bids: cosmwasm_std::Uint128::try_from(res.consumed_bids).unwrap().u128(),
            snapshots: res.snapshots,
        }),
        Err(_) => Err(FillError::Distribution),
    }
}

} // verus!
