//! Orders: the stake of one owner at one price level.
use crate::engine::bid_amount;
use crate::engine::bid_filled;
use crate::engine::engine_bid_amount;
use crate::engine::engine_bid_filled;
use crate::engine::engine_bid_is_empty;
use crate::error::ContractError;
use crate::pool::Pool;
use crate::price::PoolKey;
use crate::price::Price;
use crate::price::Side;
use crate::price::bytes_lt;
use crate::store::entry_lt;
use crate::store::raw_markers;
use crate::store::raw_orders;
use crate::store::raw_pools;
use crate::store::raw_snapshots;
use crate::store::Book;
use crate::store::owner_scanned;
use crate::store::scan_holds;
use crate::store::side_scan;
use crate::store::OrderEntry;
use rujira_rs::bid_pool::Bid;
use vstd::prelude::*;

verus! {

/// The largest page of orders that a listing returns.
pub const MAX_LIMIT: u8 = 31;

/// The page of orders that a listing returns where none is asked for.
pub const DEFAULT_LIMIT: u8 = 10;

/// An order: who owns it, when it last changed, its size at that time, and
/// its bid in the pool of its level.
#[derive(Clone, Debug, PartialEq)]
pub struct Order {
    pub owner: String,
    pub updated_at: u64,
    /// The order's size as it was at `updated_at`.
    pub offer: u128,
    pub bid: Bid,
}

/// The orders as they are after an order was saved at a level: stored under
/// its owner and the level, or gone from there once its bid is empty.
pub open spec fn orders_after_save(
    before: Map<(Seq<char>, u8, Seq<u8>), (u64, u128, Bid)>,
    order: Order,
    key: PoolKey,
) -> Map<(Seq<char>, u8, Seq<u8>), (u64, u128, Bid)> {
    let slot = (order.owner@, key.side.spec_key_byte(), key.price.spec_key_bytes());
    if bid_amount(order.bid) == 0 && bid_filled(order.bid) == 0 {
        before.remove(slot)
    } else {
        before.insert(slot, (order.updated_at, order.offer, order.bid))
    }
}

impl Order {
    /// Loads the order of an owner at a level.
    pub fn load(book: &Book, owner: &String, side: &Side, price: &Price) -> (r: Result<Self, ContractError>)
        ensures
            match book.order_at(owner@, (PoolKey { side: *side, price: *price })) {
                Some(stored) => r matches Ok(order) && order.owner@ == owner@ && order.updated_at
                    == stored.0 && order.offer == stored.1 && order.bid == stored.2,
                None => r matches Err(ContractError::NotFound),
            },
    {
        let bytes = price.key_bytes();
        match book.order_load(owner, side.key_byte(), &bytes) {
            Some((updated_at, offer, bid)) => Ok(Self { owner: owner.clone(), updated_at, offer, bid }),
            None => Err(ContractError::NotFound),
        }
    }

    /// The order's resting amount, where it fits 128 bits.
    pub fn amount(&self) -> (r: Option<u128>)
        ensures
            r == (if bid_amount(self.bid) <= u128::MAX {
                Some(bid_amount(self.bid) as u128)
            } else {
                None
            }),
    {
        engine_bid_amount(&self.bid)
    }

    /// The order's unclaimed fill, where it fits 128 bits.
    pub fn filled(&self) -> (r: Option<u128>)
        ensures
            r == (if bid_filled(self.bid) <= u128::MAX {
                Some(bid_filled(self.bid) as u128)
            } else {
                None
            }),
    {
        engine_bid_filled(&self.bid)
    }

    /// Stores the order at the level of `pool`; an order whose bid holds
    /// neither a resting amount nor an unclaimed fill is removed instead.
    pub fn save(&self, book: &mut Book, pool: &Pool)
        ensures
            raw_orders(*final(book)) == orders_after_save(raw_orders(*old(book)), *self, pool.key()),
            final(book).origin() == old(book).origin(),
            raw_markers(*final(book)) == raw_markers(*old(book)),
            raw_pools(*final(book)) == raw_pools(*old(book)),
            raw_snapshots(*final(book)) == raw_snapshots(*old(book)),
    {
        let bytes = pool.price.key_bytes();
        if engine_bid_is_empty(&self.bid) {
            book.order_remove(&self.owner, pool.side.key_byte(), &bytes);
        } else {
            book.order_save(&self.owner, pool.side.key_byte(), &bytes, self.updated_at, self.offer, &self.bid);
        }
    }
}

/// The size of the page that a listing returns: what was asked for, ten where
/// nothing was, and never more than thirty-one.
pub open spec fn page_limit(limit: Option<u8>) -> int {
    let asked = match limit {
        Some(l) => l,
        None => DEFAULT_LIMIT,
    };
    if asked <= MAX_LIMIT {
        asked as int
    } else {
        MAX_LIMIT as int
    }
}

/// The number of orders that a listing passes over first.
pub open spec fn page_offset(offset: Option<u8>) -> int {
    match offset {
        Some(o) => o as int,
        None => 0,
    }
}

/// Whether `all` is the scan of the orders of an owner as the storage yields
/// it: over both sides by side and price bytes, or over one side in its
/// direction, prices rising on the base side and falling on the quote side.
/// It holds every order of the owner that the book stores there, once, and
/// nothing in the place of an entry that cannot be read.
pub open spec fn is_scan(book: Book, owner: Seq<char>, side: Option<Side>, all: Seq<Option<OrderEntry>>) -> bool {
    match side {
        None => owner_scanned(book, owner, all) && scan_holds(book, owner, None, true, all),
        Some(on) => {
            &&& all == side_scan(book.store, owner, on.spec_key_byte(), on == Side::Base)
            &&& scan_holds(book, owner, Some(on.spec_key_byte()), on == Side::Base, all)
        },
    }
}

/// The level that a place of a scan spells: that of its entry's key, if the
/// place holds an entry and the key spells a level.
pub open spec fn entry_key(place: Option<OrderEntry>) -> Option<PoolKey> {
    match place {
        Some(entry) => if entry.side > 1 {
            None
        } else {
            match Price::spec_from_key_bytes(entry.price@) {
                Some(price) => Some(
                    PoolKey { side: if entry.side == 0 { Side::Base } else { Side::Quote }, price },
                ),
                None => None,
            }
        },
        None => None,
    }
}

/// Whether a listed order shows the stored one at a place of a scan.
pub open spec fn shows(item: (PoolKey, Order), owner: Seq<char>, place: Option<OrderEntry>) -> bool {
    &&& entry_key(place) == Some(item.0)
    &&& place matches Some(entry)
    &&& item.1.owner@ == owner
    &&& item.1.updated_at == entry.updated_at
    &&& item.1.offer == entry.offer
    &&& item.1.bid == entry.bid
}

/// Where a page starts in a scan of `len` orders.
pub open spec fn page_start(len: int, offset: Option<u8>) -> int {
    if page_offset(offset) <= len {
        page_offset(offset)
    } else {
        len
    }
}

/// Where a page ends in a scan of `len` orders.
pub open spec fn page_end(len: int, offset: Option<u8>, limit: Option<u8>) -> int {
    if page_start(len, offset) + page_limit(limit) <= len {
        page_start(len, offset) + page_limit(limit)
    } else {
        len
    }
}

/// Whether a result is the page of a scan: the orders from the page's start
/// to its end, in the scan's order; or a failure where an entry of the page
/// cannot be read or its key spells no level.
pub open spec fn is_page(r: Result<Vec<(PoolKey, Order)>, ContractError>, owner: Seq<char>, all: Seq<Option<OrderEntry>>, offset: Option<u8>, limit: Option<u8>) -> bool {
    let lo = page_start(all.len() as int, offset);
    let hi = page_end(all.len() as int, offset, limit);
    if forall|k: int| lo <= k < hi ==> entry_key(#[trigger] all[k]) is Some {
        &&& r matches Ok(page)
        &&& page.len() == hi - lo
        &&& forall|k: int| 0 <= k < page.len() ==> shows(#[trigger] page[k], owner, all[lo + k])
    } else {
        r matches Err(ContractError::Std)
    }
}

impl Order {
    /// Lists the orders of an owner, a page at a time: over both sides, or
    /// over one side in its direction. The offset and the limit are clamped,
    /// never refused.
    pub fn by_owner(book: &Book, owner: &String, side: Option<Side>, offset: Option<u8>, limit: Option<u8>) -> (r: Result<Vec<(PoolKey, Order)>, ContractError>)
        ensures
            exists|all: Seq<Option<OrderEntry>>| #[trigger] is_scan(*book, owner@, side, all) && is_page(r, owner@, all, offset, limit),
    {
        let asked: u8 = match limit {
            Some(l) => l,
            None => DEFAULT_LIMIT,
        };
        let limit_n: usize = if asked <= MAX_LIMIT {
            asked as usize
        } else {
            MAX_LIMIT as usize
        };
        let offset_n: usize = match offset {
            Some(o) => o as usize,
            None => 0,
        };
        let entries = match side {
            Some(on) => {
                let ascending = match on {
                    Side::Base => true,
                    Side::Quote => false,
                };
                book.order_entries_on(owner, on.key_byte(), ascending)
            },
            None => book.order_entries(owner),
        };
        assert(is_scan(*book, owner@, side, entries@));
        let lo: usize = if offset_n <= entries.len() {
            offset_n
        } else {
            entries.len()
        };
        let hi: usize = if limit_n <= entries.len() - lo {
            lo + limit_n
        } else {
            entries.len()
        };
        let mut page: Vec<(PoolKey, Order)> = Vec::new();
        let mut k: usize = lo;
        while k < hi
            invariant
                lo <= k <= hi <= entries.len(),
                lo == page_start(entries.len() as int, offset),
                hi == page_end(entries.len() as int, offset, limit),
                is_scan(*book, owner@, side, entries@),
                page.len() == k - lo,
                forall|i: int| lo <= i < k ==> entry_key(#[trigger] entries[i]) is Some,
                forall|i: int| 0 <= i < page.len() ==> shows(#[trigger] page[i], owner@, entries[lo + i]),
            decreases hi - k,
        {
            let entry = match &entries[k] {
                Some(entry) => entry,
                None => {
                    assert(entry_key(entries@[k as int]) is None);
                    return Err(ContractError::Std);
                },
            };
            if entry.side > 1 {
                assert(entry_key(entries@[k as int]) is None);
                return Err(ContractError::Std);
            }
            proof {
                assert(entry.price@.subrange(0, entry.price@.len() as int) =~= entry.price@);
            }
            let price = match Price::from_key_bytes(&entry.price, 0) {
                Some(price) => price,
                None => {
                    assert(entry_key(entries@[k as int]) is None);
                    return Err(ContractError::Std);
                },
            };
            let side_of = if entry.side == 0 {
                Side::Base
            } else {
                Side::Quote
            };
            let order = Order {
                owner: owner.clone(),
                updated_at: entry.updated_at,
                offer: entry.offer,
                bid: entry.bid.clone(),
            };
            page.push((PoolKey { side: side_of, price }, order));
            k += 1;
        }
        Ok(page)
    }
}

} // verus!
