//! Pools: the aggregate of the orders that rest at one price level.
use crate::engine::bid_amount;
use crate::engine::bid_current;
use crate::engine::can_sync;
use crate::engine::bid_epoch;
use crate::engine::bid_filled;
use crate::engine::consumed_bids_of;
use crate::engine::consumed_offer_of;
use crate::engine::engine_bid_amount;
use crate::engine::engine_claim;
use crate::engine::engine_distribute;
use crate::engine::engine_empty_pool;
use crate::engine::engine_increase;
use crate::engine::engine_new_bid;
use crate::engine::engine_pool_epoch;
use crate::engine::engine_pool_is_zero;
use crate::engine::engine_pool_total;
use crate::engine::engine_retract;
use crate::engine::engine_sync;
use crate::engine::fill_refused;
use crate::engine::fills_part;
use crate::engine::fresh_engine;
use crate::engine::fills_whole;
use crate::engine::pool_epoch;
use crate::engine::pool_sum;
use crate::engine::pool_total;
use crate::engine::retracted_of;
use crate::engine::snapshot_epoch;
use crate::engine::snapshot_sum;
use crate::engine::synced_bid;
use crate::engine::syncs;
use crate::engine::FillError;
use crate::error::ContractError;
use crate::events::Attribute;
use crate::price::price_text;
use crate::math::decimal_inv;
use crate::math::inverse_of;
use crate::order::orders_after_save;
use crate::merge::lemma_merged_members;
use crate::merge::lemma_merged_ordered;
use crate::merge::merge_join;
use crate::merge::merged;
use crate::merge::not_after;
use crate::merge::pairs_ordered;
use crate::merge::pools_ordered;
use crate::merge::EitherOrBoth;
use crate::order::Order;
use crate::price::bytes_lt;
use crate::price::lemma_key_order;
use crate::price::lemma_price_bytes_round_trip;
use crate::price::lemma_price_key_round_trip;
use crate::price::lemma_rate_monotone;
use crate::price::price_lt;
use crate::price::PoolKey;
use crate::price::PoolType;
use crate::price::Price;
use crate::price::Side;
use crate::store::raw_markers;
use crate::store::raw_orders;
use crate::store::raw_pools;
use crate::store::raw_snapshots;
use crate::store::lemma_slot_injective;
use crate::store::slot_of;
use crate::store::Book;
use rujira_rs::bid_pool::Pool as EnginePool;
use rujira_rs::bid_pool::SumSnapshot;
use rujira_rs::DecimalScaled;
use vstd::prelude::*;

verus! {

/// The aggregate at one level: its side and price, the rate that the price
/// stands for, and the state of the fill engine. A pool is loaded for each
/// access and written back by `commit`.
#[derive(Clone, Debug, PartialEq)]
pub struct Pool {
    pub price: Price,
    pub side: Side,
    pub pool: EnginePool,
    pub rate: u128,
    pub pending_sum_snapshots: Vec<SumSnapshot>,
}

/// The running sums as they are after the snapshots of a level were recorded,
/// one after the other.
pub open spec fn sums_recorded(
    before: Map<(u8, u8, Seq<u8>, nat), DecimalScaled>,
    slot: (u8, u8, Seq<u8>),
    snapshots: Seq<SumSnapshot>,
) -> Map<(u8, u8, Seq<u8>, nat), DecimalScaled>
    decreases snapshots.len(),
{
    if snapshots.len() == 0 {
        before
    } else {
        sums_recorded(before, slot, snapshots.drop_last()).insert(
            (slot.0, slot.1, slot.2, snapshot_epoch(snapshots.last())),
            snapshot_sum(snapshots.last()),
        )
    }
}

/// The book as it is after a pool was committed to it: the engine's state is
/// stored for the level, the level is listed exactly if something rests in
/// it, and the pending running sums are recorded. The orders are untouched.
pub open spec fn committed(before: Book, after: Book, pool: Pool) -> bool {
    let slot = slot_of(pool.key());
    &&& raw_pools(after) == raw_pools(before).insert(slot, pool.engine())
    &&& raw_markers(after) == (if pool.total() == 0 {
        raw_markers(before).remove(slot)
    } else {
        raw_markers(before).insert(slot)
    })
    &&& raw_snapshots(after) == sums_recorded(raw_snapshots(before), slot, pool.pending())
}

/// The rate at which a pool on `side` with the price rate `rate` gives bids
/// for an offer: the inverse of the rate for a base pool, the rate itself for
/// a quote pool.
pub open spec fn fill_rate_of(side: Side, rate: u128) -> nat {
    match side {
        Side::Base => inverse_of(rate as nat),
        Side::Quote => rate as nat,
    }
}

impl Pool {
    /// The state of the fill engine.
    pub open spec fn engine(&self) -> EnginePool {
        self.pool
    }

    /// The rate that the price stands for.
    pub open spec fn spec_rate(&self) -> u128 {
        self.rate
    }

    /// The running sums that the next commit records.
    pub open spec fn pending(&self) -> Seq<SumSnapshot> {
        self.pending_sum_snapshots@
    }

    /// The key of the pool's level.
    pub open spec fn key(&self) -> PoolKey {
        PoolKey { side: self.side, price: self.price }
    }

    /// The total that rests in the pool.
    pub open spec fn total(&self) -> nat {
        pool_total(self.engine())
    }

    /// Loads the pool of a level: the engine state stored for it, or that of
    /// a pool at the start of its first epoch, at the rate of its price under
    /// the oracle reading. Fails only where the price has no rate.
    pub fn load(book: &Book, price: &Price, side: &Side, oracle: Option<u128>) -> (r: Result<Self, ContractError>)
        ensures
            match price.spec_rate(oracle) {
                Some(rate) => {
                    &&& r matches Ok(pool)
                    &&& pool.price == *price
                    &&& pool.side == *side
                    &&& pool.spec_rate() == rate
                    &&& pool.pending().len() == 0
                    &&& loaded(*book, pool)
                },
                None => r matches Err(ContractError::Oracle),
            },
    {
        let rate: u128 = match price.to_rate(oracle) {
            Some(rate) => rate,
            None => {
                return Err(ContractError::Oracle);
            },
        };
        let bytes = price.key_bytes();
        let pool = match book.pool_load(side.key_byte(), price.pool_type().key_byte(), &bytes) {
            Some(stored) => stored,
            None => engine_empty_pool(),
        };
        Ok(Self { price: *price, side: *side, pool, rate, pending_sum_snapshots: Vec::new() })
    }

    /// The rate that the price stands for.
    pub fn rate(&self) -> (r: u128)
        ensures
            r == self.spec_rate(),
    {
        self.rate
    }

    /// The attributes that a trade against the pool reports: price and side.
    pub fn attributes(&self) -> (r: Vec<Attribute>)
        ensures
            r.len() == 2,
            r[0].key@ == "price"@,
            r[0].value@ == price_text(self.price),
            r[1].key@ == "side"@,
            r[1].value@ == self.side.spec_label(),
    {
        let mut attrs: Vec<Attribute> = Vec::new();
        attrs.push(Attribute::new("price", self.price.label()));
        attrs.push(Attribute::new("side", self.side.label()));
        attrs
    }

    /// The total that rests in the pool, where it fits 128 bits.
    pub fn total_amount(&self) -> (r: Option<u128>)
        ensures
            r == (if self.total() <= u128::MAX {
                Some(self.total() as u128)
            } else {
                None
            }),
    {
        engine_pool_total(&self.pool)
    }

    /// A copy of the engine's state.
    pub fn bid_pool(&self) -> (r: EnginePool)
        ensures
            r == self.engine(),
    {
        self.pool.clone()
    }

    /// Writes the pool back: records the pending running sums, stores the
    /// engine's state, and lists the level exactly if something rests in it.
    /// The engine's state is stored also for an emptied pool, so that orders
    /// with an unclaimed fill can still be brought up to date.
    pub fn commit(&self, book: &mut Book)
        ensures
            committed(*old(book), *final(book), *self),
            raw_orders(*final(book)) == raw_orders(*old(book)),
            final(book).origin() == old(book).origin(),
    {
        let side: u8 = self.side.key_byte();
        let family: u8 = self.price.pool_type().key_byte();
        let bytes = self.price.key_bytes();
        let mut i: usize = 0;
        while i < self.pending_sum_snapshots.len()
            invariant
                0 <= i <= self.pending_sum_snapshots.len(),
                side == self.side.spec_key_byte(),
                family == self.price.spec_pool_type().spec_key_byte(),
                bytes@ == self.price.spec_key_bytes(),
                raw_snapshots(*book) == sums_recorded(
                    raw_snapshots(*old(book)),
                    (side, family, bytes@),
                    self.pending_sum_snapshots@.take(i as int),
                ),
                raw_markers(*book) == raw_markers(*old(book)),
                raw_pools(*book) == raw_pools(*old(book)),
                raw_orders(*book) == raw_orders(*old(book)),
                book.origin() == old(book).origin(),
            decreases self.pending_sum_snapshots.len() - i,
        {
            book.snapshot_save(side, family, &bytes, &self.pending_sum_snapshots[i]);
            proof {
                let taken = self.pending_sum_snapshots@.take(i + 1);
                assert(taken.drop_last() =~= self.pending_sum_snapshots@.take(i as int));
                assert(taken.last() == self.pending_sum_snapshots@[i as int]);
            }
            i += 1;
        }
        proof {
            assert(self.pending_sum_snapshots@.take(i as int) =~= self.pending_sum_snapshots@);
        }
        book.pool_save(side, family, &bytes, &self.pool);
        if engine_pool_is_zero(&self.pool) {
            book.marker_remove(side, family, &bytes);
        } else {
            book.marker_save(side, family, &bytes);
        }
    }

    /// Why a trade of an offer against the pool is refused, if it is: the
    /// pool's rate has no inverse on the base side; the total leaves 128
    /// bits; the pool's epoch is the last; or the engine refuses a fill that
    /// takes a part of the pool.
    pub open spec fn swap_refusal(self, offer: nat) -> Option<ContractError> {
        let rate = fill_rate_of(self.side, self.spec_rate());
        if self.side == Side::Base && self.spec_rate() == 0 {
            Some(ContractError::Swap)
        } else if self.total() > u128::MAX {
            Some(ContractError::ConversionOverflow)
        } else if pool_epoch(self.engine()) >= u32::MAX {
            Some(ContractError::Overflow)
        } else if fills_part(self.total(), offer, rate) && fill_refused(self.engine(), offer, rate) {
            Some(ContractError::BidPool(FillError::Distribution))
        } else {
            None
        }
    }

    /// Trades an offer against the pool: the engine shares it out over the
    /// resting bids at the pool's rate. Returns the part of the offer that
    /// was used and the bids given for it. Nothing is stored before `commit`.
    pub fn swap(&mut self, offer: u128) -> (r: Result<(u128, u128), ContractError>)
        ensures
            final(self).price == old(self).price,
            final(self).side == old(self).side,
            final(self).spec_rate() == old(self).spec_rate(),
            r is Ok <==> old(self).swap_refusal(offer as nat) is None,
            r matches Err(e) ==> old(self).swap_refusal(offer as nat) == Some(e),
            r matches Ok(out) ==> {
                let rate = fill_rate_of(old(self).side, old(self).spec_rate());
                &&& out.0 == consumed_offer_of(old(self).total(), offer as nat, rate)
                &&& out.1 == consumed_bids_of(old(self).total(), offer as nat, rate)
                &&& final(self).total() == old(self).total() - out.1
                &&& if fills_whole(old(self).total(), offer as nat, rate) {
                    &&& pool_epoch(final(self).engine()) == pool_epoch(old(self).engine()) + 1
                    &&& final(self).pending().len() == 2
                    &&& snapshot_epoch(final(self).pending()[0]) == pool_epoch(old(self).engine())
                    &&& snapshot_epoch(final(self).pending()[1]) == pool_epoch(old(self).engine()) + 1
                } else if fills_part(old(self).total(), offer as nat, rate) {
                    &&& pool_epoch(final(self).engine()) == pool_epoch(old(self).engine())
                    &&& final(self).pending().len() == 1
                    &&& snapshot_epoch(final(self).pending()[0]) == pool_epoch(old(self).engine())
                } else {
                    &&& final(self).engine() == old(self).engine()
                    &&& final(self).pending().len() == 0
                }
            },
            r is Err ==> final(self).total() == old(self).total(),
    {
        let rate: u128 = match self.side {
            Side::Base => match decimal_inv(self.rate) {
                Some(inverse) => inverse,
                None => {
                    return Err(ContractError::Swap);
                },
            },
            Side::Quote => self.rate,
        };
        if engine_pool_total(&self.pool).is_none() {
            return Err(ContractError::ConversionOverflow);
        }
        if engine_pool_epoch(&self.pool) == u32::MAX {
            return Err(ContractError::Overflow);
        }
        match engine_distribute(&mut self.pool, offer, rate) {
            Ok(res) => {
                self.pending_sum_snapshots = res.snapshots;
                Ok((res.consumed_offer, res.consumed_bids))
            },
            Err(e) => Err(ContractError::BidPool(e)),
        }
    }

    /// Registers a new stake of `offer` for `owner`: a new bid in the pool,
    /// the pool committed, and the order stored.
    pub fn create_order(&mut self, book: &mut Book, timestamp: u64, owner: &String, offer: u128) -> (r: Result<Order, ContractError>)
        ensures
            final(self).price == old(self).price,
            final(self).side == old(self).side,
            final(self).spec_rate() == old(self).spec_rate(),
            final(book).origin() == old(book).origin(),
            r is Ok <==> old(self).total() + offer <= u128::MAX,
            r matches Err(e) ==> e matches ContractError::Overflow && *final(self) == *old(self)
                && *final(book) == *old(book),
            old(book).backed() ==> final(book).backed(),
            r matches Ok(order) ==> {
                &&& order.owner@ == owner@
                &&& order.updated_at == timestamp
                &&& order.offer == offer
                &&& bid_amount(order.bid) == offer
                &&& bid_filled(order.bid) == 0
                &&& bid_epoch(order.bid) == pool_epoch(old(self).engine())
                &&& bid_current(final(self).engine(), order.bid)
                &&& final(self).total() == old(self).total() + offer
                &&& pool_epoch(final(self).engine()) == pool_epoch(old(self).engine())
                &&& pool_sum(final(self).engine()) == pool_sum(old(self).engine())
                &&& final(self).pending() == old(self).pending()
                &&& committed(*old(book), *final(book), *final(self))
                &&& raw_orders(*final(book)) == orders_after_save(
                    raw_orders(*old(book)),
                    order,
                    old(self).key(),
                )
            },
    {
        let total: u128 = match engine_pool_total(&self.pool) {
            Some(total) => total,
            None => {
                return Err(ContractError::Overflow);
            },
        };
        if offer > u128::MAX - total {
            return Err(ContractError::Overflow);
        }
        let bid = engine_new_bid(&mut self.pool, offer);
        let order = Order { owner: owner.clone(), offer, updated_at: timestamp, bid };
        self.commit(book);
        order.save(book, self);
        proof {
            if old(book).backed() {
                lemma_stake_keeps_backed(*old(book), *book, *self, order);
            }
        }
        Ok(order)
    }

    /// Whether the order of `owner` at the pool's level, if there is one,
    /// can be handed to the engine to be brought up to date with the pool,
    /// by the running sum recorded for the order's epoch.
    pub open spec fn can_load(self, book: Book, owner: Seq<char>) -> bool {
        book.order_at(owner, self.key()) matches Some(stored) ==> can_sync(
            self.engine(),
            stored.2,
            book.sum_at(self.key(), bid_epoch(stored.2)),
        )
    }

    /// Loads the order of `owner` at the pool's level and brings it up to
    /// date with the pool.
    pub fn load_order(&self, book: &Book, owner: &String) -> (r: Result<Order, ContractError>)
        requires
            self.can_load(*book, owner@),
        ensures
            r matches Ok(order) ==> bid_current(self.engine(), order.bid),
            match book.order_at(owner@, self.key()) {
                None => r matches Err(ContractError::NotFound),
                Some(stored) => if syncs(self.engine(), stored.2) {
                    &&& r matches Ok(order)
                    &&& order.owner@ == owner@
                    &&& order.updated_at == stored.0
                    &&& order.offer == stored.1
                    &&& order.bid == synced_bid(
                        self.engine(),
                        stored.2,
                        book.sum_at(self.key(), bid_epoch(stored.2)),
                    )
                    &&& bid_epoch(order.bid) == pool_epoch(self.engine())
                } else {
                    r matches Err(ContractError::Std)
                },
            },
    {
        let mut order = Order::load(book, owner, &self.side, &self.price)?;
        self.sync_order(book, &mut order)?;
        Ok(order)
    }

    /// Brings an order up to date with the pool: its resting and filled
    /// amounts as the engine derives them from the pool's state and the
    /// running sum recorded for the order's epoch. The cost does not depend
    /// on how many trades the pool has seen since.
    pub fn sync_order(&self, book: &Book, order: &mut Order) -> (r: Result<(), ContractError>)
        requires
            can_sync(self.engine(), old(order).bid, book.sum_at(self.key(), bid_epoch(old(order).bid))),
        ensures
            r is Ok ==> bid_current(self.engine(), final(order).bid),
            final(order).owner == old(order).owner,
            final(order).updated_at == old(order).updated_at,
            final(order).offer == old(order).offer,
            r is Ok <==> syncs(self.engine(), old(order).bid),
            r matches Err(e) ==> e matches ContractError::Std,
            r is Ok ==> final(order).bid == synced_bid(
                self.engine(),
                old(order).bid,
                book.sum_at(self.key(), bid_epoch(old(order).bid)),
            ) && bid_epoch(final(order).bid) == pool_epoch(self.engine()),
    {
        let bytes = self.price.key_bytes();
        let sum = book.snapshot_load(
            self.side.key_byte(),
            self.price.pool_type().key_byte(),
            &bytes,
            &order.bid,
        );
        if engine_sync(&self.pool, &mut order.bid, sum) {
            Ok(())
        } else {
            Err(ContractError::Std)
        }
    }

    /// Adds `amount` to an order: the engine grows the bid and the pool, the
    /// order records its new size and the time, and both are stored.
    pub fn increase_order(&mut self, book: &mut Book, order: &mut Order, timestamp: u64, amount: u128) -> (r: Result<u128, ContractError>)
        ensures
            final(self).price == old(self).price,
            final(self).side == old(self).side,
            final(self).spec_rate() == old(self).spec_rate(),
            final(book).origin() == old(book).origin(),
            final(order).owner == old(order).owner,
            r is Ok <==> bid_amount(old(order).bid) + amount <= u128::MAX && old(self).total()
                + amount <= u128::MAX,
            r matches Err(e) ==> e matches ContractError::Overflow && *final(book) == *old(book)
                && *final(self) == *old(self) && *final(order) == *old(order),
            r matches Ok(added) ==> {
                &&& added == amount
                &&& bid_amount(final(order).bid) == bid_amount(old(order).bid) + amount
                &&& bid_filled(final(order).bid) == bid_filled(old(order).bid)
                &&& bid_epoch(final(order).bid) == bid_epoch(old(order).bid)
                &&& bid_current(final(self).engine(), final(order).bid) == bid_current(
                    old(self).engine(),
                    old(order).bid,
                )
                &&& final(order).offer == bid_amount(final(order).bid)
                &&& final(order).updated_at == timestamp
                &&& final(self).total() == old(self).total() + amount
                &&& pool_epoch(final(self).engine()) == pool_epoch(old(self).engine())
                &&& pool_sum(final(self).engine()) == pool_sum(old(self).engine())
                &&& final(self).pending() == old(self).pending()
                &&& committed(*old(book), *final(book), *final(self))
                &&& raw_orders(*final(book)) == orders_after_save(
                    raw_orders(*old(book)),
                    *final(order),
                    old(self).key(),
                )
            },
    {
        let held: u128 = match engine_bid_amount(&order.bid) {
            Some(held) => held,
            None => {
                return Err(ContractError::Overflow);
            },
        };
        let total: u128 = match engine_pool_total(&self.pool) {
            Some(total) => total,
            None => {
                return Err(ContractError::Overflow);
            },
        };
        if amount > u128::MAX - held || amount > u128::MAX - total {
            return Err(ContractError::Overflow);
        }
        match engine_increase(&mut order.bid, &mut self.pool, amount) {
            Ok(()) => {},
            Err(_) => {
                assert(false);
            },
        }
        order.offer = held + amount;
        order.updated_at = timestamp;
        order.save(book, self);
        self.commit(book);
        Ok(amount)
    }

    /// Takes `amount`, or everything where none is given, back out of an
    /// order: the engine shrinks the bid and the pool, the order records its
    /// new size and the time, and both are stored. Returns what was taken.
    pub fn retract_order(&mut self, book: &mut Book, order: &mut Order, timestamp: u64, amount: Option<u128>) -> (r: Result<u128, ContractError>)
        ensures
            final(self).price == old(self).price,
            final(self).side == old(self).side,
            final(self).spec_rate() == old(self).spec_rate(),
            final(book).origin() == old(book).origin(),
            final(order).owner == old(order).owner,
            r is Ok <==> {
                &&& bid_amount(old(order).bid) <= u128::MAX
                &&& retracted_of(bid_amount(old(order).bid), amount) <= bid_amount(old(order).bid)
                &&& retracted_of(bid_amount(old(order).bid), amount) <= old(self).total()
            },
            r is Err ==> *final(book) == *old(book) && *final(self) == *old(self) && *final(order)
                == *old(order),
            r matches Ok(refund) ==> {
                &&& refund == retracted_of(bid_amount(old(order).bid), amount)
                &&& bid_amount(final(order).bid) == bid_amount(old(order).bid) - refund
                &&& bid_filled(final(order).bid) == bid_filled(old(order).bid)
                &&& bid_epoch(final(order).bid) == bid_epoch(old(order).bid)
                &&& bid_current(final(self).engine(), final(order).bid) == bid_current(
                    old(self).engine(),
                    old(order).bid,
                )
                &&& final(order).offer == bid_amount(final(order).bid)
                &&& final(order).updated_at == timestamp
                &&& final(self).total() == old(self).total() - refund
                &&& pool_epoch(final(self).engine()) == pool_epoch(old(self).engine())
                &&& pool_sum(final(self).engine()) == pool_sum(old(self).engine())
                &&& final(self).pending() == old(self).pending()
                &&& committed(*old(book), *final(book), *final(self))
                &&& raw_orders(*final(book)) == orders_after_save(
                    raw_orders(*old(book)),
                    *final(order),
                    old(self).key(),
                )
            },
    {
        let held: u128 = match engine_bid_amount(&order.bid) {
            Some(held) => held,
            None => {
                return Err(ContractError::ConversionOverflow);
            },
        };
        let wanted: u128 = match amount {
            Some(a) => a,
            None => held,
        };
        if wanted > held {
            return Err(ContractError::BidPool(FillError::Withdraw));
        }
        match engine_pool_total(&self.pool) {
            Some(total) => {
                if wanted > total {
                    return Err(ContractError::BidPool(FillError::Overflow));
                }
            },
            None => {},
        }
        let refund: u128 = match engine_retract(&mut order.bid, &mut self.pool, amount) {
            Ok(Some(refund)) => refund,
            _ => {
                assert(false);
                0
            },
        };
        order.offer = held - refund;
        order.updated_at = timestamp;
        order.save(book, self);
        self.commit(book);
        Ok(refund)
    }

    /// Pulls the unclaimed fill out of an order and stores the order; its
    /// resting size does not change. An order with nothing left is removed.
    pub fn claim_order(&mut self, book: &mut Book, order: &mut Order) -> (r: Result<u128, ContractError>)
        ensures
            *final(self) == *old(self),
            final(book).origin() == old(book).origin(),
            final(order).owner == old(order).owner,
            final(order).updated_at == old(order).updated_at,
            final(order).offer == old(order).offer,
            r is Ok <==> bid_filled(old(order).bid) <= u128::MAX,
            r matches Err(e) ==> e matches ContractError::ConversionOverflow && *final(book)
                == *old(book) && *final(order) == *old(order),
            r matches Ok(claimed) ==> {
                &&& claimed == bid_filled(old(order).bid)
                &&& bid_filled(final(order).bid) == 0
                &&& bid_amount(final(order).bid) == bid_amount(old(order).bid)
                &&& bid_epoch(final(order).bid) == bid_epoch(old(order).bid)
                &&& bid_current(old(self).engine(), final(order).bid) == bid_current(
                    old(self).engine(),
                    old(order).bid,
                )
                &&& raw_orders(*final(book)) == orders_after_save(
                    raw_orders(*old(book)),
                    *final(order),
                    old(self).key(),
                )
                &&& raw_markers(*final(book)) == raw_markers(*old(book))
                &&& raw_pools(*final(book)) == raw_pools(*old(book))
                &&& raw_snapshots(*final(book)) == raw_snapshots(*old(book))
            },
    {
        if crate::engine::engine_bid_filled(&order.bid).is_none() {
            return Err(ContractError::ConversionOverflow);
        }
        let claimed: u128 = match engine_claim(&mut order.bid) {
            Some(claimed) => claimed,
            None => {
                assert(false);
                0
            },
        };
        order.save(book, self);
        Ok(claimed)
    }
}

/// Whether a pool is one that the book lists on a side: its level carries a
/// marker, it holds the engine state stored for the level, and its rate is
/// that of its price under the oracle reading.
pub open spec fn listed(book: Book, side: Side, oracle: Option<u128>, pool: Pool) -> bool {
    &&& pool.side == side
    &&& book.has_marker(pool.key())
    &&& book.engine_at(pool.key()) == Some(pool.engine())
    &&& pool.price.spec_rate(oracle) == Some(pool.rate)
    &&& pool.pending().len() == 0
}

/// Whether a marker can be read as a pool: its price bytes spell a price of
/// its family, an engine state is stored for it, and the price has a rate.
pub open spec fn slot_sound(book: Book, side: Side, family: PoolType, bytes: Seq<u8>, oracle: Option<u128>) -> bool {
    match Price::spec_from_key_bytes(bytes) {
        Some(price) => {
            &&& price.spec_pool_type() == family
            &&& raw_pools(book).contains_key((side.spec_key_byte(), family.spec_key_byte(), bytes))
            &&& price.spec_rate(oracle) is Some
        },
        None => false,
    }
}

/// Whether every marker of a side and family can be read as a pool.
pub open spec fn family_sound(book: Book, side: Side, family: PoolType, oracle: Option<u128>) -> bool {
    forall|bytes: Seq<u8>| #[trigger]
        raw_markers(book).contains((side.spec_key_byte(), family.spec_key_byte(), bytes))
            ==> slot_sound(book, side, family, bytes, oracle)
}

/// Whether a pair of a side's traversal is made of listed pools: a fixed
/// price on the left, an oracle-relative one on the right, at one rate where
/// both are there.
pub open spec fn pair_listed(book: Book, side: Side, oracle: Option<u128>, pair: EitherOrBoth<Pool, Pool>) -> bool {
    &&& pair.spec_left() matches Some(l) ==> listed(book, side, oracle, l) && l.price is Fixed
    &&& pair.spec_right() matches Some(r) ==> listed(book, side, oracle, r) && r.price is Oracle
    &&& pair matches EitherOrBoth::Both(l, r) ==> l.rate == r.rate
}

/// Whether a pair holds the pool of a price.
pub open spec fn pair_has_price(pair: EitherOrBoth<Pool, Pool>, price: Price) -> bool {
    ||| pair.spec_left() matches Some(l) && l.price == price
    ||| pair.spec_right() matches Some(r) && r.price == price
}

/// Whether a traversal holds the pool of every level that the book lists on
/// a side.
pub open spec fn lists_all(book: Book, side: Side, pairs: Seq<EitherOrBoth<Pool, Pool>>) -> bool {
    forall|price: Price| #[trigger] book.has_marker((PoolKey { side, price })) ==> exists|k: int|
        0 <= k < pairs.len() && pair_has_price(#[trigger] pairs[k], price)
}

/// Whether pools are the listing of one side and family of the book: the
/// pool of every level that the book lists there, each once, by rising price
/// on the base side and by falling price on the quote side.
pub open spec fn is_listing(book: Book, side: Side, family: PoolType, oracle: Option<u128>, pools: Seq<Pool>) -> bool {
    &&& forall|i: int| 0 <= i < pools.len() ==> listed(book, side, oracle, #[trigger] pools[i])
            && pools[i].price.spec_pool_type() == family
    &&& forall|i: int, j: int| 0 <= i < j < pools.len() ==> if side == Side::Base {
        price_lt((#[trigger] pools[i]).price, (#[trigger] pools[j]).price)
    } else {
        price_lt(pools[j].price, pools[i].price)
    }
    &&& forall|price: Price| price.spec_pool_type() == family && #[trigger] book.has_marker((PoolKey { side, price }))
            ==> exists|i: int| 0 <= i < pools.len() && (#[trigger] pools[i]).price == price
}

/// Reads the pools of one side and family in the order of the side.
fn listing(book: &Book, side: &Side, family: PoolType, oracle: Option<u128>) -> (r: Result<Vec<Pool>, ContractError>)
    ensures
        r is Ok <==> family_sound(*book, *side, family, oracle),
        r matches Err(e) ==> e matches ContractError::Std || e matches ContractError::Oracle,
        r matches Ok(pools) ==> {
            &&& forall|i: int| 0 <= i < pools.len() ==> listed(*book, *side, oracle, #[trigger] pools[i])
                    && pools[i].price.spec_pool_type() == family
            &&& pools_ordered(pools@, *side)
            &&& forall|price: Price| price.spec_pool_type() == family && #[trigger] book.has_marker((PoolKey { side: *side, price }))
                    ==> exists|i: int| 0 <= i < pools.len() && (#[trigger] pools[i]).price == price
            &&& is_listing(*book, *side, family, oracle, pools@)
        },
{
    let ascending = match side {
        Side::Base => true,
        Side::Quote => false,
    };
    let sb: u8 = side.key_byte();
    let fb: u8 = family.key_byte();
    let keys = book.marker_prices(sb, fb, ascending);
    let mut out: Vec<Pool> = Vec::new();
    let mut i: usize = 0;
    while i < keys.len()
        invariant
            0 <= i <= keys.len(),
            out.len() == i,
            sb == side.spec_key_byte(),
            fb == family.spec_key_byte(),
            ascending == (*side == Side::Base),
            forall|k: int| 0 <= k < keys.len() ==> raw_markers(*book).contains((sb, fb, (#[trigger] keys[k])@)),
            forall|p: Seq<u8>| #[trigger] raw_markers(*book).contains((sb, fb, p)) ==> exists|k: int|
                0 <= k < keys.len() && (#[trigger] keys[k])@ == p,
            forall|a: int, b: int| 0 <= a < b < keys.len() ==> if ascending {
                bytes_lt((#[trigger] keys[a])@, (#[trigger] keys[b])@)
            } else {
                bytes_lt(keys[b]@, keys[a]@)
            },
            forall|k: int| 0 <= k < i ==> {
                &&& (#[trigger] out[k]).price.spec_key_bytes() == keys[k]@
                &&& out[k].price.spec_pool_type() == family
                &&& listed(*book, *side, oracle, out[k])
                &&& slot_sound(*book, *side, family, keys[k]@, oracle)
            },
        decreases keys.len() - i,
    {
        let price = match Price::from_key_bytes(&keys[i], 0) {
            Some(price) => price,
            None => {
                assert(keys[i as int]@.subrange(0, keys[i as int]@.len() as int) =~= keys[i as int]@);
                assert(!slot_sound(*book, *side, family, keys[i as int]@, oracle));
                return Err(ContractError::Std);
            },
        };
        proof {
            assert(keys[i as int]@.subrange(0, keys[i as int]@.len() as int) =~= keys[i as int]@);
            lemma_price_bytes_round_trip(keys[i as int]@);
        }
        if price.pool_type().key_byte() != fb {
            assert(!slot_sound(*book, *side, family, keys[i as int]@, oracle));
            return Err(ContractError::Std);
        }
        let rate: u128 = match price.to_rate(oracle) {
            Some(rate) => rate,
            None => {
                assert(!slot_sound(*book, *side, family, keys[i as int]@, oracle));
                return Err(ContractError::Oracle);
            },
        };
        let engine = match book.pool_load(sb, fb, &keys[i]) {
            Some(engine) => engine,
            None => {
                assert(!slot_sound(*book, *side, family, keys[i as int]@, oracle));
                return Err(ContractError::Std);
            },
        };
        let pool = Pool { price, side: *side, pool: engine, rate, pending_sum_snapshots: Vec::new() };
        proof {
            assert(slot_of(pool.key()) == (sb, fb, keys[i as int]@));
        }
        out.push(pool);
        i += 1;
    }
    proof {
        assert forall|bytes: Seq<u8>| #[trigger] raw_markers(*book).contains((sb, fb, bytes)) implies slot_sound(
            *book,
            *side,
            family,
            bytes,
            oracle,
        ) by {
            let k = choose|k: int| 0 <= k < keys.len() && (#[trigger] keys[k])@ == bytes;
            assert(listed(*book, *side, oracle, out[k]));
            assert(slot_sound(*book, *side, family, keys[k]@, oracle));
        }
        assert forall|a: int, b: int| 0 <= a < b < out.len() implies not_after(
            *side,
            (#[trigger] out@[a]).rate,
            (#[trigger] out@[b]).rate,
        ) by {
            assert(listed(*book, *side, oracle, out[a]));
            assert(listed(*book, *side, oracle, out[b]));
            if ascending {
                assert(bytes_lt(keys[a]@, keys[b]@));
                lemma_key_order(out[a].price, out[b].price);
                lemma_rate_monotone(out[a].price, out[b].price, oracle);
            } else {
                assert(bytes_lt(keys[b]@, keys[a]@));
                lemma_key_order(out[b].price, out[a].price);
                lemma_rate_monotone(out[b].price, out[a].price, oracle);
            }
        }
        assert forall|a: int, b: int| 0 <= a < b < out.len() implies if *side == Side::Base {
            price_lt((#[trigger] out@[a]).price, (#[trigger] out@[b]).price)
        } else {
            price_lt(out@[b].price, out@[a].price)
        } by {
            assert(listed(*book, *side, oracle, out[a]));
            assert(listed(*book, *side, oracle, out[b]));
            if ascending {
                assert(bytes_lt(keys[a]@, keys[b]@));
                lemma_key_order(out[a].price, out[b].price);
            } else {
                assert(bytes_lt(keys[b]@, keys[a]@));
                lemma_key_order(out[b].price, out[a].price);
            }
        }
        assert forall|price: Price| price.spec_pool_type() == family && #[trigger] book.has_marker(
            PoolKey { side: *side, price },
        ) implies exists|i: int| 0 <= i < out.len() && (#[trigger] out[i]).price == price by {
            let bytes = price.spec_key_bytes();
            assert(raw_markers(*book).contains((sb, fb, bytes)));
            let k = choose|k: int| 0 <= k < keys.len() && (#[trigger] keys[k])@ == bytes;
            lemma_price_key_round_trip(price);
            lemma_price_key_round_trip(out[k].price);
            assert(out[k].price == price);
        }
    }
    Ok(out)
}

impl Pool {
    /// Whether every marker of a side can be read as a pool.
    pub open spec fn readable(book: Book, side: Side, oracle: Option<u128>) -> bool {
        family_sound(book, side, PoolType::Fixed, oracle) && family_sound(
            book,
            side,
            PoolType::Oracle,
            oracle,
        )
    }

    /// The pools that the book lists on a side, in the order of the side:
    /// rising rates on the base side, falling rates on the quote side. The
    /// fixed and the oracle-relative prices are merged by rate; where one of
    /// each stands at a rate, they come as one pair. Every listed level is in
    /// the traversal, with its engine state loaded. Fails where a marker
    /// cannot be read as a pool.
    pub fn iter(book: &Book, side: &Side, oracle: Option<u128>) -> (r: Result<Vec<EitherOrBoth<Pool, Pool>>, ContractError>)
        ensures
            r is Ok <==> Pool::readable(*book, *side, oracle),
            r matches Err(e) ==> e matches ContractError::Std || e matches ContractError::Oracle,
            r matches Ok(pairs) ==> {
                &&& pairs_ordered(pairs@, *side)
                &&& forall|k: int| 0 <= k < pairs.len() ==> pair_listed(*book, *side, oracle, #[trigger] pairs[k])
                &&& lists_all(*book, *side, pairs@)
                &&& exists|fixed: Seq<Pool>, relative: Seq<Pool>|
                    {
                        &&& #[trigger] is_listing(*book, *side, PoolType::Fixed, oracle, fixed)
                        &&& #[trigger] is_listing(*book, *side, PoolType::Oracle, oracle, relative)
                        &&& pairs@ == merged(fixed, relative, *side)
                    }
            },
    {
        let fixed = match listing(book, side, PoolType::Fixed, oracle) {
            Ok(fixed) => fixed,
            Err(e) => {
                return Err(e);
            },
        };
        let relative = match listing(book, side, PoolType::Oracle, oracle) {
            Ok(relative) => relative,
            Err(e) => {
                return Err(e);
            },
        };
        let ghost left = fixed@;
        let ghost right = relative@;
        let pairs = merge_join(fixed, relative, *side);
        proof {
            lemma_merged_ordered(left, right, *side);
            lemma_merged_members(left, right, *side);
            assert forall|k: int| 0 <= k < pairs.len() implies pair_listed(
                *book,
                *side,
                oracle,
                #[trigger] pairs[k],
            ) by {
                if let Some(l) = pairs[k].spec_left() {
                    assert(left.contains(l));
                    let i = choose|i: int| 0 <= i < left.len() && left[i] == l;
                    assert(listed(*book, *side, oracle, left[i]));
                }
                if let Some(r) = pairs[k].spec_right() {
                    assert(right.contains(r));
                    let i = choose|i: int| 0 <= i < right.len() && right[i] == r;
                    assert(listed(*book, *side, oracle, right[i]));
                }
            }
            assert forall|price: Price| #[trigger] book.has_marker((PoolKey { side: *side, price })) implies exists|k: int|
                0 <= k < pairs.len() && pair_has_price(#[trigger] pairs@[k], price) by {
                if price.spec_pool_type() == PoolType::Fixed {
                    let i = choose|i: int| 0 <= i < left.len() && (#[trigger] left[i]).price == price;
                    let k = choose|k: int| 0 <= k < pairs.len() && (#[trigger] pairs@[k]).spec_left() == Some(left[i]);
                    assert(pair_has_price(pairs[k], price));
                } else {
                    let i = choose|i: int| 0 <= i < right.len() && (#[trigger] right[i]).price == price;
                    let k = choose|k: int| 0 <= k < pairs.len() && (#[trigger] pairs@[k]).spec_right() == Some(right[i]);
                    assert(pair_has_price(pairs[k], price));
                }
            }
            assert(lists_all(*book, *side, pairs@));
        }
        Ok(pairs)
    }
}

/// Whether a pool holds what `Pool::load` gives for its level from a book:
/// the engine state stored there, or that of a pool at the start of its
/// first epoch.
pub open spec fn loaded(book: Book, pool: Pool) -> bool {
    match book.engine_at(pool.key()) {
        Some(stored) => pool.engine() == stored,
        None => pool.engine() == fresh_engine(0) && pool.total() == 0 && pool_epoch(pool.engine()) == 0,
    }
}

/// The engine state that a pool loaded for a level starts from: the state
/// stored for the level, or that of a pool at the start of its first epoch.
pub open spec fn engine_for(book: Book, key: PoolKey) -> EnginePool {
    match book.engine_at(key) {
        Some(engine) => engine,
        None => fresh_engine(0),
    }
}

/// Whether the order of an owner at a level, if there is one, can be handed
/// to the engine to be brought up to date with the pool loaded for the
/// level, by the running sum recorded for the order's epoch.
pub open spec fn order_ready(book: Book, owner: Seq<char>, key: PoolKey) -> bool {
    book.order_at(owner, key) matches Some(stored) ==> can_sync(
        engine_for(book, key),
        stored.2,
        book.sum_at(key, bid_epoch(stored.2)),
    )
}

/// Whether a level is in a state from which the order of an owner can be
/// brought up to date now and after it has been written back: the running
/// sum recorded for the epoch of the level's engine state is none or the
/// engine's own, and the owner's order, if there is one, can be handed to
/// the engine.
pub open spec fn level_ready(book: Book, owner: Seq<char>, key: PoolKey) -> bool {
    let engine = engine_for(book, key);
    let sum = book.sum_at(key, pool_epoch(engine));
    &&& sum is None || sum == Some(pool_sum(engine))
    &&& book.order_at(owner, key) matches Some(stored) ==> can_sync(
        engine,
        stored.2,
        book.sum_at(key, bid_epoch(stored.2)),
    )
}

/// A level that is ready is one whose order can be brought up to date.
pub proof fn lemma_ready_level_loads(book: Book, owner: Seq<char>, key: PoolKey)
    requires
        level_ready(book, owner, key),
    ensures
        order_ready(book, owner, key),
{
}

/// Writing an order back keeps a level ready: the order that was brought up
/// to date with the pool loaded for its level is current with the pool as it
/// is written, and nothing else that the readiness of a level rests on has
/// changed. `rewritten` says whether the pool was committed with the order.
pub proof fn lemma_ready_kept(before: Book, after: Book, order: Order, was: Pool, now: Pool, rewritten: bool, other: PoolKey)
    requires
        loaded(before, was),
        now.key() == was.key(),
        level_ready(before, order.owner@, other),
        raw_snapshots(after) == raw_snapshots(before),
        after == before || raw_orders(after) == orders_after_save(raw_orders(before), order, was.key()),
        rewritten ==> committed(before, after, now),
        !rewritten ==> raw_pools(after) == raw_pools(before) && now == was,
        bid_current(now.engine(), order.bid),
        bid_epoch(order.bid) == pool_epoch(now.engine()),
        pool_epoch(now.engine()) == pool_epoch(was.engine()),
        pool_sum(now.engine()) == pool_sum(was.engine()),
    ensures
        level_ready(after, order.owner@, other),
{
    let key = was.key();
    let owner = order.owner@;
    let place = (owner, key.side.spec_key_byte(), key.price.spec_key_bytes());
    if after != before {
        assert forall|n: nat| after.sum_at(other, n) == before.sum_at(other, n) by {}
        if other != key {
            if rewritten {
                lemma_commit_frame(before, after, now, other);
            }
            let spot = (owner, other.side.spec_key_byte(), other.price.spec_key_bytes());
            if spot == place {
                lemma_slot_injective(other, key);
            }
            assert(after.order_at(owner, other) == before.order_at(owner, other));
            assert(after.engine_at(other) == before.engine_at(other));
            assert(engine_for(after, other) == engine_for(before, other));
        } else {
            assert(engine_for(before, key) == was.engine());
            assert(engine_for(after, key) == now.engine());
            let sum = after.sum_at(key, pool_epoch(now.engine()));
            assert(sum == before.sum_at(key, pool_epoch(was.engine())));
            assert(sum is None || sum == Some(pool_sum(now.engine())));
            if after.order_at(owner, key) is Some {
                let stored = after.order_at(owner, key).unwrap();
                assert(stored.2 == order.bid);
            }
        }
    }
}

/// Once a pool has been committed with nothing resting in it, its level is
/// gone from the book's listing and from every traversal, while the engine
/// state stays stored: a pool loaded for the level later starts from that
/// state, not from an empty one.
pub proof fn lemma_emptied_level_survives(before: Book, after: Book, pool: Pool, later: Pool, oracle: Option<u128>, pairs: Seq<EitherOrBoth<Pool, Pool>>)
    requires
        committed(before, after, pool),
        pool.total() == 0,
        forall|k: int| 0 <= k < pairs.len() ==> pair_listed(after, pool.side, oracle, #[trigger] pairs[k]),
        later.key() == pool.key(),
        loaded(after, later),
    ensures
        !after.has_marker(pool.key()),
        forall|k: int| 0 <= k < pairs.len() ==> !pair_has_price(#[trigger] pairs[k], pool.price),
        after.engine_at(pool.key()) == Some(pool.engine()),
        later.engine() == pool.engine(),
{
    assert forall|k: int| 0 <= k < pairs.len() implies !pair_has_price(#[trigger] pairs[k], pool.price) by {
        assert(pair_listed(after, pool.side, oracle, pairs[k]));
        if let Some(l) = pairs[k].spec_left() {
            if l.price == pool.price {
                assert(l.key() == pool.key());
            }
        }
        if let Some(r) = pairs[k].spec_right() {
            if r.price == pool.price {
                assert(r.key() == pool.key());
            }
        }
    }
}

/// Committing a pool changes the listing and the stored engine state of its
/// own level only.
pub proof fn lemma_commit_frame(before: Book, after: Book, pool: Pool, other: PoolKey)
    requires
        committed(before, after, pool),
        other != pool.key(),
    ensures
        after.has_marker(other) == before.has_marker(other),
        after.engine_at(other) == before.engine_at(other),
        after.has_marker(pool.key()) == (pool.total() != 0),
        after.engine_at(pool.key()) == Some(pool.engine()),
{
    if slot_of(other) == slot_of(pool.key()) {
        lemma_slot_injective(other, pool.key());
    }
}

/// Committing a pool and saving an order at its level leaves no order
/// without the engine state of its level.
pub proof fn lemma_stake_keeps_backed(before: Book, after: Book, pool: Pool, order: Order)
    requires
        before.backed(),
        committed(before, after, pool),
        raw_orders(after) == orders_after_save(raw_orders(before), order, pool.key()),
    ensures
        after.backed(),
{
    let key = pool.key();
    let place = (order.owner@, key.side.spec_key_byte(), key.price.spec_key_bytes());
    assert forall|owner: Seq<char>, k: PoolKey| #[trigger] after.order_at(owner, k) is Some implies after.engine_at(
        k,
    ) is Some by {
        let spot = (owner, k.side.spec_key_byte(), k.price.spec_key_bytes());
        if spot == place {
            lemma_slot_injective(k, key);
        } else {
            assert(raw_orders(before).contains_key(spot));
            assert(before.order_at(owner, k) is Some);
            assert(before.engine_at(k) is Some);
        }
    }
}

} // verus!
