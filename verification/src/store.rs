//! The persisted book: presence markers, engine pools, running sums and orders.
//!
//! The book lives in a `cosmwasm_std::Storage`, laid out by `cw_storage_plus`
//! maps under the namespaces `pools`, `bid-pools`, `snapshots` and `orders`. A
//! key is handed over in its parts as bytes: the side, the price family, and
//! the price. What the four maps hold is named here, and each access states
//! over those names what it reads or changes.
//!
//! The book keeps a journal of what its writes have overwritten, so that a
//! batch that fails can be taken back: `revert` restores the book as it was
//! when the journal was empty.
use rujira_rs::bid_pool::Pool as EnginePool;
use rujira_rs::bid_pool::Bid;
use rujira_rs::bid_pool::SumSnapshot;
use rujira_rs::DecimalScaled;
use crate::engine::bid_epoch;
use crate::engine::snapshot_epoch;
use crate::engine::snapshot_sum;
use crate::price::bytes_lt;
use crate::price::lemma_price_key_round_trip;
use crate::price::PoolKey;
use vstd::prelude::*;

verus! {

/// A handle on the storage that holds the book. The storage is a
/// `cosmwasm_std::Storage` behind a trait object, which the verifier cannot
/// look into: the handle is opaque, and all that is known of it is what the
/// accesses below state.
#[verifier::external_body]
pub struct Store<'a> {
    storage: &'a mut dyn cosmwasm_std::Storage,
}

/// One stored order as a scan under an owner and a side yields it.
pub struct OrderEntry {
    /// The byte of the order's side.
    pub side: u8,
    /// The key bytes of the order's price.
    pub price: Vec<u8>,
    /// When the order was last changed, in nanoseconds.
    pub updated_at: u64,
    /// The order's size at that time.
    pub offer: u128,
    /// The order's bid in its pool.
    pub bid: Bid,
}

/// One stored order as a scan under an owner yields it: the rest of its key
/// behind the owner, as it is stored, and what is stored under it.
pub struct KeyedOrder {
    /// The key behind the owner: the framed side byte, then the price bytes.
    pub key: Vec<u8>,
    /// When the order was last changed, in nanoseconds.
    pub updated_at: u64,
    /// The order's size at that time.
    pub offer: u128,
    /// The order's bid in its pool.
    pub bid: Bid,
}

/// What a write has overwritten, to be put back when the write is undone.
pub enum Undo {
    /// Whether the level carried a marker.
    Marker { side: u8, family: u8, price: Vec<u8>, marked: bool },
    /// The engine pool that was stored for the level, if there was one.
    Pool { side: u8, family: u8, price: Vec<u8>, stored: Option<EnginePool> },
    /// The running sum that was recorded for the level under the key of the
    /// snapshot `at`, if there was one.
    Sum { side: u8, family: u8, price: Vec<u8>, at: SumSnapshot, recorded: Option<DecimalScaled> },
    /// The order that was stored for the owner at the level, if there was one.
    Order { owner: String, side: u8, price: Vec<u8>, kept: Option<(u64, u128, Bid)> },
}

/// The book: the storage that holds it, and the journal of what the writes
/// since the journal was last empty have overwritten, the latest last.
pub struct Book<'a> {
    pub store: Store<'a>,
    pub journal: Vec<Undo>,
}

/// What the four maps of a book hold.
pub ghost struct Held {
    pub markers: Set<(u8, u8, Seq<u8>)>,
    pub pools: Map<(u8, u8, Seq<u8>), EnginePool>,
    pub snapshots: Map<(u8, u8, Seq<u8>, nat), DecimalScaled>,
    pub orders: Map<(Seq<char>, u8, Seq<u8>), (u64, u128, Bid)>,
}

/// The keys under the map `pools` whose value reads: side byte, family byte,
/// price bytes.
pub uninterp spec fn kept_markers(store: Store) -> Set<(u8, u8, Seq<u8>)>;

/// The entries under the map `bid-pools` that read.
pub uninterp spec fn kept_pools(store: Store) -> Map<(u8, u8, Seq<u8>), EnginePool>;

/// The entries under the map `snapshots` that read, by level and epoch.
pub uninterp spec fn kept_snapshots(store: Store) -> Map<(u8, u8, Seq<u8>, nat), DecimalScaled>;

/// The entries under the map `orders` that read, by owner, side byte and
/// price bytes: time of the last change, size at that time, and bid.
pub uninterp spec fn kept_orders(store: Store) -> Map<(Seq<char>, u8, Seq<u8>), (u64, u128, Bid)>;

/// The places under one side and family of the map `pools` as a scan of the
/// storage yields them, rising or falling: the price bytes of a marker, or
/// nothing where the entry cannot be read.
pub uninterp spec fn marker_scan(store: Store, side: u8, family: u8, ascending: bool) -> Seq<Option<Vec<u8>>>;

/// The places under one owner of the map `orders` as a scan of the storage
/// yields them, rising: the rest of the key and what is stored, or nothing
/// where the entry cannot be read.
pub uninterp spec fn keyed_scan(store: Store, owner: Seq<char>) -> Seq<Option<KeyedOrder>>;

/// The orders of an owner on one side as a scan of the storage yields them,
/// rising or falling: where an entry cannot be read, nothing stands in its
/// place.
pub uninterp spec fn side_scan(store: Store, owner: Seq<char>, side: u8, ascending: bool) -> Seq<Option<OrderEntry>>;

/// The levels that carry a presence marker: side byte, family byte, price bytes.
pub open spec fn raw_markers(book: Book) -> Set<(u8, u8, Seq<u8>)> {
    kept_markers(book.store)
}

/// The engine pool stored for each level.
pub open spec fn raw_pools(book: Book) -> Map<(u8, u8, Seq<u8>), EnginePool> {
    kept_pools(book.store)
}

/// The running sum recorded for each level and epoch.
pub open spec fn raw_snapshots(book: Book) -> Map<(u8, u8, Seq<u8>, nat), DecimalScaled> {
    kept_snapshots(book.store)
}

/// The stored orders by owner, side byte and price bytes: time of the last
/// change, size at that time, and bid.
pub open spec fn raw_orders(book: Book) -> Map<(Seq<char>, u8, Seq<u8>), (u64, u128, Bid)> {
    kept_orders(book.store)
}

/// What is held once a write is undone: what it overwrote stands again.
pub open spec fn restored(held: Held, undo: Undo) -> Held {
    match undo {
        Undo::Marker { side, family, price, marked } => Held {
            markers: if marked {
                held.markers.insert((side, family, price@))
            } else {
                held.markers.remove((side, family, price@))
            },
            ..held
        },
        Undo::Pool { side, family, price, stored } => Held {
            pools: match stored {
                Some(pool) => held.pools.insert((side, family, price@), pool),
                None => held.pools.remove((side, family, price@)),
            },
            ..held
        },
        Undo::Sum { side, family, price, at, recorded } => Held {
            snapshots: match recorded {
                Some(sum) => held.snapshots.insert((side, family, price@, snapshot_epoch(at)), sum),
                None => held.snapshots.remove((side, family, price@, snapshot_epoch(at))),
            },
            ..held
        },
        Undo::Order { owner, side, price, kept } => Held {
            orders: match kept {
                Some(order) => held.orders.insert((owner@, side, price@), order),
                None => held.orders.remove((owner@, side, price@)),
            },
            ..held
        },
    }
}

/// What is held once every write of a journal is undone, the latest first.
pub open spec fn undone(held: Held, journal: Seq<Undo>) -> Held
    decreases journal.len(),
{
    if journal.len() == 0 {
        held
    } else {
        undone(restored(held, journal.last()), journal.drop_last())
    }
}

/// The key of an order behind its owner, as it is stored: the side byte
/// framed by its length, then the price bytes.
pub open spec fn framed(side: u8, price: Seq<u8>) -> Seq<u8> {
    seq![0u8, 1u8, side] + price
}

/// The side byte and the price bytes that a key behind an owner holds, if it
/// is framed as the keys of orders are.
pub open spec fn unframed(key: Seq<u8>) -> Option<(u8, Seq<u8>)> {
    if key.len() >= 3 && key[0] == 0 && key[1] == 1 {
        Some((key[2], key.skip(3)))
    } else {
        None
    }
}

/// Whether a place of a scan under an owner that holds a framed key holds
/// an order as the storage keeps it for the owner.
pub open spec fn keyed_kept(store: Store, owner: Seq<char>, place: Option<KeyedOrder>) -> bool {
    match place {
        Some(entry) => match unframed(entry.key@) {
            Some((side, price)) => {
                &&& kept_orders(store).contains_key((owner, side, price))
                &&& kept_orders(store)[(owner, side, price)] == (entry.updated_at, entry.offer, entry.bid)
            },
            None => true,
        },
        None => true,
    }
}

/// Whether a place of a scan under an owner holds the key of a side and price.
pub open spec fn keyed_of(place: Option<KeyedOrder>, side: u8, price: Seq<u8>) -> bool {
    place matches Some(entry) && entry.key@ == framed(side, price)
}

/// Whether two places of a scan under an owner, the first before the
/// second, have their keys in dictionary order where both hold one.
pub open spec fn keyed_in_order(first: Option<KeyedOrder>, second: Option<KeyedOrder>) -> bool {
    match (first, second) {
        (Some(a), Some(b)) => bytes_lt(a.key@, b.key@),
        _ => true,
    }
}

/// Whether a place of a scan of markers that holds price bytes holds those
/// of a marker that the storage keeps.
pub open spec fn marker_kept(store: Store, side: u8, family: u8, place: Option<Vec<u8>>) -> bool {
    place matches Some(price) ==> kept_markers(store).contains((side, family, price@))
}

/// Whether a place of a scan of markers holds the given price bytes.
pub open spec fn marker_of(place: Option<Vec<u8>>, price: Seq<u8>) -> bool {
    place matches Some(found) && found@ == price
}

/// Whether two places of a scan of markers, the first before the second,
/// are in the scan's order where both hold price bytes.
pub open spec fn markers_in_order(first: Option<Vec<u8>>, second: Option<Vec<u8>>, ascending: bool) -> bool {
    match (first, second) {
        (Some(a), Some(b)) => if ascending {
            bytes_lt(a@, b@)
        } else {
            bytes_lt(b@, a@)
        },
        _ => true,
    }
}

/// The order of two stored orders of one owner in a scan over both sides: by
/// side byte, then by price bytes.
pub open spec fn entry_lt(a: OrderEntry, b: OrderEntry) -> bool {
    a.side < b.side || (a.side == b.side && bytes_lt(a.price@, b.price@))
}

/// Whether a place of a scan that holds an entry holds an order as the
/// storage keeps it for the owner.
pub open spec fn place_kept(store: Store, owner: Seq<char>, place: Option<OrderEntry>) -> bool {
    place matches Some(entry) ==> {
        &&& kept_orders(store).contains_key((owner, entry.side, entry.price@))
        &&& kept_orders(store)[(owner, entry.side, entry.price@)] == (entry.updated_at, entry.offer, entry.bid)
    }
}

/// Whether a place of a scan that holds an entry holds an order as the book
/// stores it for the owner.
pub open spec fn place_stored(book: Book, owner: Seq<char>, place: Option<OrderEntry>) -> bool {
    place_kept(book.store, owner, place)
}

/// Whether a place of a scan that holds an entry holds one of the side, where
/// a side is given.
pub open spec fn place_on(place: Option<OrderEntry>, side: Option<u8>) -> bool {
    match (place, side) {
        (Some(entry), Some(on)) => entry.side == on,
        _ => true,
    }
}

/// Whether a place of a scan holds the entry of a side and price.
pub open spec fn place_of(place: Option<OrderEntry>, side: u8, price: Seq<u8>) -> bool {
    place matches Some(entry) && entry.side == side && entry.price@ == price
}

/// Whether two places of a scan, the first before the second, are in the
/// scan's order where both hold an entry: by side byte and then by price
/// bytes where the scan is over both sides; by price bytes, rising or
/// falling, where it is over one.
pub open spec fn places_in_order(first: Option<OrderEntry>, second: Option<OrderEntry>, side: Option<u8>, ascending: bool) -> bool {
    match (first, second) {
        (Some(a), Some(b)) => match side {
            None => entry_lt(a, b),
            Some(_) => if ascending {
                bytes_lt(a.price@, b.price@)
            } else {
                bytes_lt(b.price@, a.price@)
            },
        },
        _ => true,
    }
}

/// Whether a scan holds the orders of an owner as the storage keeps them,
/// over both sides or on one: every entry that it holds is a stored order of
/// the owner, on the side where one is given; every stored order of the
/// owner there is held once; and the entries are in the scan's order.
pub open spec fn scan_keeps(store: Store, owner: Seq<char>, side: Option<u8>, ascending: bool, all: Seq<Option<OrderEntry>>) -> bool {
    &&& forall|i: int| 0 <= i < all.len() ==> place_kept(store, owner, #[trigger] all[i])
    &&& forall|i: int| 0 <= i < all.len() ==> place_on(#[trigger] all[i], side)
    &&& forall|s: u8, p: Seq<u8>| #[trigger]
        kept_orders(store).contains_key((owner, s, p)) && (side is None || side == Some(s)) ==> exists|i: int|
            0 <= i < all.len() && place_of(#[trigger] all[i], s, p)
    &&& forall|i: int, j: int| 0 <= i < j < all.len() ==> places_in_order(#[trigger] all[i], #[trigger] all[j], side, ascending)
}

/// Whether a scan holds the orders of an owner as the book stores them.
pub open spec fn scan_holds(book: Book, owner: Seq<char>, side: Option<u8>, ascending: bool, all: Seq<Option<OrderEntry>>) -> bool {
    scan_keeps(book.store, owner, side, ascending, all)
}

/// Whether a place of a scan over both sides shows what a place of the scan
/// of the storage holds: nothing where that holds nothing or a key that is
/// not framed, and else the order under the side and the price of the key.
pub open spec fn spells(found: Option<KeyedOrder>, place: Option<OrderEntry>) -> bool {
    match found {
        Some(keyed) => match unframed(keyed.key@) {
            Some((side, price)) => {
                &&& place matches Some(entry)
                &&& entry.side == side
                &&& entry.price@ == price
                &&& entry.updated_at == keyed.updated_at
                &&& entry.offer == keyed.offer
                &&& entry.bid == keyed.bid
            },
            None => place is None,
        },
        None => place is None,
    }
}

/// Whether `all` is the scan of the orders of an owner over both sides as
/// the storage yields it, place by place.
pub open spec fn owner_scanned(book: Book, owner: Seq<char>, all: Seq<Option<OrderEntry>>) -> bool {
    &&& all.len() == keyed_scan(book.store, owner).len()
    &&& forall|i: int| 0 <= i < all.len() ==> spells(keyed_scan(book.store, owner)[i], #[trigger] all[i])
}

/// The parts under which a level is stored: side byte, family byte, price bytes.
pub open spec fn slot_of(key: PoolKey) -> (u8, u8, Seq<u8>) {
    (key.side.spec_key_byte(), key.price.spec_pool_type().spec_key_byte(), key.price.spec_key_bytes())
}

/// Different levels are stored under different parts.
pub proof fn lemma_slot_injective(a: PoolKey, b: PoolKey)
    requires
        a.side.spec_key_byte() == b.side.spec_key_byte(),
        a.price.spec_key_bytes() == b.price.spec_key_bytes(),
    ensures
        a == b,
{
    lemma_price_key_round_trip(a.price);
    lemma_price_key_round_trip(b.price);
}

/// A key that is framed from a side byte and price bytes holds them.
pub proof fn lemma_framed_holds(side: u8, price: Seq<u8>)
    ensures
        unframed(framed(side, price)) == Some((side, price)),
{
    assert(framed(side, price).skip(3) =~= price);
}

/// A key that holds a side byte and price bytes is framed from them.
pub proof fn lemma_unframed_is_framed(key: Seq<u8>)
    requires
        unframed(key) is Some,
    ensures
        key == framed(unframed(key).unwrap().0, unframed(key).unwrap().1),
{
    assert(key =~= framed(key[2], key.skip(3)));
}

/// Framed keys in dictionary order have their side bytes, and then their
/// price bytes, in that order.
pub proof fn lemma_framed_order(a_side: u8, a_price: Seq<u8>, b_side: u8, b_price: Seq<u8>)
    requires
        bytes_lt(framed(a_side, a_price), framed(b_side, b_price)),
    ensures
        a_side < b_side || (a_side == b_side && bytes_lt(a_price, b_price)),
{
    let a = framed(a_side, a_price);
    let b = framed(b_side, b_price);
    let k = choose|k: int|
        0 <= k <= a.len() && k < b.len() && #[trigger] a.take(k) == b.take(k) && (k == a.len() || a[k] < b[k]);
    if k >= 3 {
        assert(a.take(k)[2] == b.take(k)[2]);
        assert(a_price.take(k - 3) =~= b_price.take(k - 3)) by {
            assert forall|i: int| 0 <= i < k - 3 implies a_price[i] == b_price[i] by {
                assert(a.take(k)[i + 3] == b.take(k)[i + 3]);
            }
        }
        if k != a.len() {
            assert(a[k] == a_price[k - 3] && b[k] == b_price[k - 3]);
        }
    }
}

/// Copies the bytes of a key from a place on.
pub fn rest_of(bytes: &Vec<u8>, from: usize) -> (r: Vec<u8>)
    requires
        from <= bytes.len(),
    ensures
        r@ == bytes@.skip(from as int),
{
    let mut out: Vec<u8> = Vec::new();
    let mut i: usize = from;
    while i < bytes.len()
        invariant
            from <= i <= bytes.len(),
            out@ == bytes@.subrange(from as int, i as int),
        decreases bytes.len() - i,
    {
        out.push(bytes[i]);
        proof {
            assert(out@ =~= bytes@.subrange(from as int, i + 1));
        }
        i += 1;
    }
    proof {
        assert(out@ =~= bytes@.skip(from as int));
    }
    out
}

impl<'a> Store<'a> {
    /// Keeps the reference to the `cosmwasm_std::Storage`. Nothing is known
    /// of what the storage holds.
    #[verifier::external_body]
    pub(crate) fn new<S: cosmwasm_std::Storage>(storage: &'a mut S) -> (r: Self) {
        Store { storage }
    }

    /// Calls `cw_storage_plus::Map::save` on the map `pools`: the level
    /// carries a marker afterwards; nothing else changes.
    #[verifier::external_body]
    pub(crate) fn marker_save(&mut self, side: u8, family: u8, price: &Vec<u8>)
        ensures
            kept_markers(*final(self)) == kept_markers(*old(self)).insert((side, family, price@)),
            kept_pools(*final(self)) == kept_pools(*old(self)),
            kept_snapshots(*final(self)) == kept_snapshots(*old(self)),
            kept_orders(*final(self)) == kept_orders(*old(self)),
    {
        let map: cw_storage_plus::Map<(u8, u8, &[u8]), ()> = cw_storage_plus::Map::new("pools");
        map.save(self.storage, (side, family, price.as_slice()), &()).unwrap();
    }

    /// Calls `cw_storage_plus::Map::remove` on the map `pools`: the level
    /// carries no marker afterwards; nothing else changes.
    #[verifier::external_body]
    pub(crate) fn marker_remove(&mut self, side: u8, family: u8, price: &Vec<u8>)
        ensures
            kept_markers(*final(self)) == kept_markers(*old(self)).remove((side, family, price@)),
            kept_pools(*final(self)) == kept_pools(*old(self)),
            kept_snapshots(*final(self)) == kept_snapshots(*old(self)),
            kept_orders(*final(self)) == kept_orders(*old(self)),
    {
        let map: cw_storage_plus::Map<(u8, u8, &[u8]), ()> = cw_storage_plus::Map::new("pools");
        map.remove(self.storage, (side, family, price.as_slice()));
    }

    /// Calls `cw_storage_plus::Map::may_load` on the map `pools`: whether a
    /// marker that reads is stored for the level.
    #[verifier::external_body]
    pub(crate) fn marker_has(&self, side: u8, family: u8, price: &Vec<u8>) -> (r: bool)
        ensures
            r == kept_markers(*self).contains((side, family, price@)),
    {
        let map: cw_storage_plus::Map<(u8, u8, &[u8]), ()> = cw_storage_plus::Map::new("pools");
        map.may_load(self.storage, (side, family, price.as_slice())).ok().flatten().is_some()
    }

    /// Calls `cw_storage_plus::Prefix::range` on the map `pools` under one
    /// side and family: one place for each entry stored there, in the byte
    /// order of the prices, rising or falling. A place holds the price bytes
    /// of a marker that reads, each such marker once, or nothing where the
    /// outside function cannot read the entry; which places those are is
    /// named, not stated.
    #[verifier::external_body]
    pub(crate) fn marker_places(&self, side: u8, family: u8, ascending: bool) -> (r: Vec<Option<Vec<u8>>>)
        ensures
            r@ == marker_scan(*self, side, family, ascending),
            forall|i: int| 0 <= i < r.len() ==> marker_kept(*self, side, family, #[trigger] r[i]),
            forall|p: Seq<u8>| #[trigger] kept_markers(*self).contains((side, family, p)) ==> exists|i: int| 0 <= i < r.len() && marker_of(#[trigger] r[i], p),
            forall|i: int, j: int| 0 <= i < j < r.len() ==> markers_in_order(#[trigger] r[i], #[trigger] r[j], ascending),
    {
        let map: cw_storage_plus::Map<(u8, u8, &[u8]), ()> = cw_storage_plus::Map::new("pools");
        let order = if ascending {
            cosmwasm_std::Order::Ascending
        } else {
            cosmwasm_std::Order::Descending
        };
        map.prefix((side, family)).range(self.storage, None, None, order).map(|x| x.ok().map(|(k, _)| k)).collect()
    }

    /// Calls `cw_storage_plus::Map::may_load` on the map `bid-pools`: the
    /// engine pool stored for the level, if there is one.
    #[verifier::external_body]
    pub(crate) fn pool_load(&self, side: u8, family: u8, price: &Vec<u8>) -> (r: Option<EnginePool>)
        ensures
            r == (if kept_pools(*self).contains_key((side, family, price@)) {
                Some(kept_pools(*self)[(side, family, price@)])
            } else {
                None
            }),
    {
        let map: cw_storage_plus::Map<(u8, u8, &[u8]), EnginePool> = cw_storage_plus::Map::new(
            "bid-pools",
        );
        map.may_load(self.storage, (side, family, price.as_slice())).ok().flatten()
    }

    /// Calls `cw_storage_plus::Map::save` on the map `bid-pools`: the engine
    /// pool is stored for the level; nothing else changes.
    #[verifier::external_body]
    pub(crate) fn pool_save(&mut self, side: u8, family: u8, price: &Vec<u8>, pool: &EnginePool)
        ensures
            kept_pools(*final(self)) == kept_pools(*old(self)).insert((side, family, price@), *pool),
            kept_markers(*final(self)) == kept_markers(*old(self)),
            kept_snapshots(*final(self)) == kept_snapshots(*old(self)),
            kept_orders(*final(self)) == kept_orders(*old(self)),
    {
        let map: cw_storage_plus::Map<(u8, u8, &[u8]), EnginePool> = cw_storage_plus::Map::new(
            "bid-pools",
        );
        map.save(self.storage, (side, family, price.as_slice()), pool).unwrap();
    }

    /// Calls `cw_storage_plus::Map::remove` on the map `bid-pools`: no engine
    /// pool is stored for the level afterwards; nothing else changes.
    #[verifier::external_body]
    pub(crate) fn pool_remove(&mut self, side: u8, family: u8, price: &Vec<u8>)
        ensures
            kept_pools(*final(self)) == kept_pools(*old(self)).remove((side, family, price@)),
            kept_markers(*final(self)) == kept_markers(*old(self)),
            kept_snapshots(*final(self)) == kept_snapshots(*old(self)),
            kept_orders(*final(self)) == kept_orders(*old(self)),
    {
        let map: cw_storage_plus::Map<(u8, u8, &[u8]), EnginePool> = cw_storage_plus::Map::new(
            "bid-pools",
        );
        map.remove(self.storage, (side, family, price.as_slice()));
    }

    /// Calls `cw_storage_plus::Map::may_load` on the map `snapshots`, under
    /// the level and the key that `rujira_rs::bid_pool::Bid::sum_snapshot_key`
    /// gives: the running sum recorded for the bid's epoch, if there is one.
    #[verifier::external_body]
    pub(crate) fn snapshot_load(&self, side: u8, family: u8, price: &Vec<u8>, bid: &Bid) -> (r: Option<DecimalScaled>)
        ensures
            r == (if kept_snapshots(*self).contains_key((side, family, price@, bid_epoch(*bid))) {
                Some(kept_snapshots(*self)[(side, family, price@, bid_epoch(*bid))])
            } else {
                None
            }),
    {
        let map: cw_storage_plus::Map<((u8, u8, &[u8]), rujira_rs::bid_pool::SumSnapshotKey), DecimalScaled> =
            cw_storage_plus::Map::new("snapshots");
        let key = ((side, family, price.as_slice()), bid.sum_snapshot_key());
        map.may_load(self.storage, key).ok().flatten()
    }

    /// Calls `cw_storage_plus::Map::may_load` on the map `snapshots`, under
    /// the level and the key that `rujira_rs::bid_pool::SumSnapshot::key`
    /// gives: the running sum recorded for the snapshot's epoch, if there is
    /// one.
    #[verifier::external_body]
    pub(crate) fn snapshot_at(&self, side: u8, family: u8, price: &Vec<u8>, at: &SumSnapshot) -> (r: Option<DecimalScaled>)
        ensures
            r == (if kept_snapshots(*self).contains_key((side, family, price@, snapshot_epoch(*at))) {
                Some(kept_snapshots(*self)[(side, family, price@, snapshot_epoch(*at))])
            } else {
                None
            }),
    {
        let map: cw_storage_plus::Map<((u8, u8, &[u8]), rujira_rs::bid_pool::SumSnapshotKey), DecimalScaled> =
            cw_storage_plus::Map::new("snapshots");
        map.may_load(self.storage, ((side, family, price.as_slice()), at.key())).ok().flatten()
    }

    /// Calls `cw_storage_plus::Map::save` on the map `snapshots`, under the
    /// level and the key that `rujira_rs::bid_pool::SumSnapshot::key` gives:
    /// the snapshot's sum is recorded for its epoch; nothing else changes.
    #[verifier::external_body]
    pub(crate) fn snapshot_save(&mut self, side: u8, family: u8, price: &Vec<u8>, snapshot: &SumSnapshot)
        ensures
            kept_snapshots(*final(self)) == kept_snapshots(*old(self)).insert((side, family, price@, snapshot_epoch(*snapshot)), snapshot_sum(*snapshot)),
            kept_markers(*final(self)) == kept_markers(*old(self)),
            kept_pools(*final(self)) == kept_pools(*old(self)),
            kept_orders(*final(self)) == kept_orders(*old(self)),
    {
        let map: cw_storage_plus::Map<((u8, u8, &[u8]), rujira_rs::bid_pool::SumSnapshotKey), DecimalScaled> =
            cw_storage_plus::Map::new("snapshots");
        let key = ((side, family, price.as_slice()), snapshot.key());
        map.save(self.storage, key, &snapshot.sum).unwrap();
    }

    /// Calls `cw_storage_plus::Map::save` on the map `snapshots`, under the
    /// level and the key that `rujira_rs::bid_pool::SumSnapshot::key` gives
    /// for `at`: the given sum is recorded for that epoch; nothing else
    /// changes.
    #[verifier::external_body]
    pub(crate) fn snapshot_put(&mut self, side: u8, family: u8, price: &Vec<u8>, at: &SumSnapshot, sum: &DecimalScaled)
        ensures
            kept_snapshots(*final(self)) == kept_snapshots(*old(self)).insert((side, family, price@, snapshot_epoch(*at)), *sum),
            kept_markers(*final(self)) == kept_markers(*old(self)),
            kept_pools(*final(self)) == kept_pools(*old(self)),
            kept_orders(*final(self)) == kept_orders(*old(self)),
    {
        let map: cw_storage_plus::Map<((u8, u8, &[u8]), rujira_rs::bid_pool::SumSnapshotKey), DecimalScaled> =
            cw_storage_plus::Map::new("snapshots");
        map.save(self.storage, ((side, family, price.as_slice()), at.key()), sum).unwrap();
    }

    /// Calls `cw_storage_plus::Map::remove` on the map `snapshots`, under the
    /// level and the key that `rujira_rs::bid_pool::SumSnapshot::key` gives
    /// for `at`: no sum is recorded for that epoch afterwards; nothing else
    /// changes.
    #[verifier::external_body]
    pub(crate) fn snapshot_remove(&mut self, side: u8, family: u8, price: &Vec<u8>, at: &SumSnapshot)
        ensures
            kept_snapshots(*final(self)) == kept_snapshots(*old(self)).remove((side, family, price@, snapshot_epoch(*at))),
            kept_markers(*final(self)) == kept_markers(*old(self)),
            kept_pools(*final(self)) == kept_pools(*old(self)),
            kept_orders(*final(self)) == kept_orders(*old(self)),
    {
        let map: cw_storage_plus::Map<((u8, u8, &[u8]), rujira_rs::bid_pool::SumSnapshotKey), DecimalScaled> =
            cw_storage_plus::Map::new("snapshots");
        map.remove(self.storage, ((side, family, price.as_slice()), at.key()));
    }

    /// Calls `cw_storage_plus::Map::may_load` on the map `orders`: the order
    /// stored for the owner at the level, if there is one.
    #[verifier::external_body]
    pub(crate) fn order_load(&self, owner: &String, side: u8, price: &Vec<u8>) -> (r: Option<(u64, u128, Bid)>)
        ensures
            r == (if kept_orders(*self).contains_key((owner@, side, price@)) {
                Some(kept_orders(*self)[(owner@, side, price@)])
            } else {
                None
            }),
    {
        let map: cw_storage_plus::Map<
            (&str, u8, &[u8]),
            (cosmwasm_std::Timestamp, cosmwasm_std::Uint128, Bid),
        > = cw_storage_plus::Map::new("orders");
        let found = map.may_load(self.storage, (owner.as_str(), side, price.as_slice()));
        found.ok().flatten().map(|(t, o, b)| (t.nanos(), o.u128(), b))
    }

    /// Calls `cw_storage_plus::Map::save` on the map `orders`: the order is
    /// stored for the owner at the level; nothing else changes.
    #[verifier::external_body]
    pub(crate) fn order_save(&mut self, owner: &String, side: u8, price: &Vec<u8>, updated_at: u64, offer: u128, bid: &Bid)
        ensures
            kept_orders(*final(self)) == kept_orders(*old(self)).insert((owner@, side, price@), (updated_at, offer, *bid)),
            kept_markers(*final(self)) == kept_markers(*old(self)),
            kept_pools(*final(self)) == kept_pools(*old(self)),
            kept_snapshots(*final(self)) == kept_snapshots(*old(self)),
    {
        let map: cw_storage_plus::Map<
            (&str, u8, &[u8]),
            (cosmwasm_std::Timestamp, cosmwasm_std::Uint128, Bid),
        > = cw_storage_plus::Map::new("orders");
        let value = (
            cosmwasm_std::Timestamp::from_nanos(updated_at),
            cosmwasm_std::Uint128::new(offer),
            bid.clone(),
        );
        map.save(self.storage, (owner.as_str(), side, price.as_slice()), &value).unwrap();
    }

    /// Calls `cw_storage_plus::Map::remove` on the map `orders`: no order is
    /// stored for the owner at the level afterwards; nothing else changes.
    #[verifier::external_body]
    pub(crate) fn order_remove(&mut self, owner: &String, side: u8, price: &Vec<u8>)
        ensures
            kept_orders(*final(self)) == kept_orders(*old(self)).remove((owner@, side, price@)),
            kept_markers(*final(self)) == kept_markers(*old(self)),
            kept_pools(*final(self)) == kept_pools(*old(self)),
            kept_snapshots(*final(self)) == kept_snapshots(*old(self)),
    {
        let map: cw_storage_plus::Map<
            (&str, u8, &[u8]),
            (cosmwasm_std::Timestamp, cosmwasm_std::Uint128, Bid),
        > = cw_storage_plus::Map::new("orders");
        map.remove(self.storage, (owner.as_str(), side, price.as_slice()));
    }

    /// Calls `cw_storage_plus::Prefix::range_raw` on the map `orders` under
    /// one owner, rising: one place for each entry stored under the owner,
    /// with the rest of its key as it is stored, in the dictionary order of
    /// the keys. The outside function does not take the keys apart. Every
    /// order of the owner that reads has one place, under the key framed
    /// from its side and price. A place holds nothing where the outside
    /// function cannot read what is stored; which places those are is named,
    /// not stated.
    #[verifier::external_body]
    pub(crate) fn order_places(&self, owner: &String) -> (r: Vec<Option<KeyedOrder>>)
        ensures
            r@ == keyed_scan(*self, owner@),
            forall|i: int| 0 <= i < r.len() ==> keyed_kept(*self, owner@, #[trigger] r[i]),
            forall|s: u8, p: Seq<u8>| #[trigger] kept_orders(*self).contains_key((owner@, s, p)) ==> exists|i: int| 0 <= i < r.len() && keyed_of(#[trigger] r[i], s, p),
            forall|i: int, j: int| 0 <= i < j < r.len() ==> keyed_in_order(#[trigger] r[i], #[trigger] r[j]),
    {
        let map: cw_storage_plus::Map<
            (&str, u8, &[u8]),
            (cosmwasm_std::Timestamp, cosmwasm_std::Uint128, Bid),
        > = cw_storage_plus::Map::new("orders");
        let order = cosmwasm_std::Order::Ascending;
        map.sub_prefix(owner.as_str()).range_raw(self.storage, None, None, order).map(
            |x| x.ok().map(|(k, (t, o, b))| KeyedOrder { key: k, updated_at: t.nanos(), offer: o.u128(), bid: b }),
        ).collect()
    }

    /// Calls `cw_storage_plus::Prefix::range` on the map `orders` under one
    /// owner and side: every order of the owner on that side, each once, in
    /// the byte order of the prices, rising or falling. An entry that the
    /// outside function cannot read is passed on as nothing in its place;
    /// which places those are is named, not stated.
    #[verifier::external_body]
    pub(crate) fn order_entries_on(&self, owner: &String, side: u8, ascending: bool) -> (r: Vec<Option<OrderEntry>>)
        ensures
            r@ == side_scan(*self, owner@, side, ascending),
            scan_keeps(*self, owner@, Some(side), ascending, r@),
    {
        let map: cw_storage_plus::Map<
            (&str, u8, &[u8]),
            (cosmwasm_std::Timestamp, cosmwasm_std::Uint128, Bid),
        > = cw_storage_plus::Map::new("orders");
        let order = if ascending {
            cosmwasm_std::Order::Ascending
        } else {
            cosmwasm_std::Order::Descending
        };
        map.prefix((owner.as_str(), side)).range(self.storage, None, None, order).map(
            |x| x.ok().map(|(p, (t, o, b))| OrderEntry { side, price: p, updated_at: t.nanos(), offer: o.u128(), bid: b }),
        ).collect()
    }
}

impl<'a> Book<'a> {
    /// Whether the level is listed in the book.
    pub open spec fn has_marker(self, key: PoolKey) -> bool {
        raw_markers(self).contains(slot_of(key))
    }

    /// The engine pool stored for the level, if there is one.
    pub open spec fn engine_at(self, key: PoolKey) -> Option<EnginePool> {
        if raw_pools(self).contains_key(slot_of(key)) {
            Some(raw_pools(self)[slot_of(key)])
        } else {
            None
        }
    }

    /// The running sum recorded for the level and epoch, if there is one.
    pub open spec fn sum_at(self, key: PoolKey, epoch: nat) -> Option<DecimalScaled> {
        let slot = slot_of(key);
        if raw_snapshots(self).contains_key((slot.0, slot.1, slot.2, epoch)) {
            Some(raw_snapshots(self)[(slot.0, slot.1, slot.2, epoch)])
        } else {
            None
        }
    }

    /// The order stored for the owner at the level, if there is one: time of
    /// the last change, size at that time, and bid.
    pub open spec fn order_at(self, owner: Seq<char>, key: PoolKey) -> Option<(u64, u128, Bid)> {
        let slot = (owner, key.side.spec_key_byte(), key.price.spec_key_bytes());
        if raw_orders(self).contains_key(slot) {
            Some(raw_orders(self)[slot])
        } else {
            None
        }
    }

    /// Whether the book holds the engine state of every level at which an
    /// order is stored.
    pub open spec fn backed(self) -> bool {
        forall|owner: Seq<char>, key: PoolKey| #[trigger] self.order_at(owner, key) is Some ==> self.engine_at(key) is Some
    }

    /// What the four maps of the book hold.
    pub open spec fn held(self) -> Held {
        Held {
            markers: raw_markers(self),
            pools: raw_pools(self),
            snapshots: raw_snapshots(self),
            orders: raw_orders(self),
        }
    }

    /// What the book held when its journal was last empty: what it holds
    /// now, with every write of the journal undone.
    pub open spec fn origin(self) -> Held {
        undone(self.held(), self.journal@)
    }

    /// Opens the book that a storage holds, with an empty journal. Nothing
    /// is known of what the storage holds.
    pub fn new<S: cosmwasm_std::Storage>(storage: &'a mut S) -> (r: Self)
        ensures
            r.journal@.len() == 0,
            r.origin() == r.held(),
    {
        Book { store: Store::new(storage), journal: Vec::new() }
    }

    /// Takes back every write that the journal holds, the latest first: the
    /// book holds again what it held when the journal was last empty.
    pub fn revert(&mut self)
        ensures
            final(self).held() == old(self).origin(),
            final(self).journal@.len() == 0,
            final(self).origin() == old(self).origin(),
    {
        while self.journal.len() > 0
            invariant
                undone(self.held(), self.journal@) == old(self).origin(),
            decreases self.journal.len(),
        {
            let ghost before = self.held();
            let ghost entries = self.journal@;
            let undo = self.journal.pop().unwrap();
            proof {
                assert(entries.last() == undo);
                assert(self.journal@ == entries.drop_last());
            }
            match undo {
                Undo::Marker { side, family, price, marked } => {
                    if marked {
                        self.store.marker_save(side, family, &price);
                    } else {
                        self.store.marker_remove(side, family, &price);
                    }
                },
                Undo::Pool { side, family, price, stored } => {
                    match stored {
                        Some(pool) => {
                            self.store.pool_save(side, family, &price, &pool);
                        },
                        None => {
                            self.store.pool_remove(side, family, &price);
                        },
                    }
                },
                Undo::Sum { side, family, price, at, recorded } => {
                    match recorded {
                        Some(sum) => {
                            self.store.snapshot_put(side, family, &price, &at, &sum);
                        },
                        None => {
                            self.store.snapshot_remove(side, family, &price, &at);
                        },
                    }
                },
                Undo::Order { owner, side, price, kept } => {
                    match kept {
                        Some(order) => {
                            self.store.order_save(&owner, side, &price, order.0, order.1, &order.2);
                        },
                        None => {
                            self.store.order_remove(&owner, side, &price);
                        },
                    }
                },
            }
            proof {
                assert(self.held() == restored(before, undo));
            }
        }
    }

    /// Forgets what the journal holds: the book as it is now is what a later
    /// `revert` goes back to.
    pub fn keep(&mut self)
        ensures
            final(self).held() == old(self).held(),
            final(self).journal@.len() == 0,
            final(self).origin() == old(self).held(),
    {
        self.journal = Vec::new();
    }

    /// Whether the level is listed in the book.
    pub fn lists(&self, key: &PoolKey) -> (r: bool)
        ensures
            r == self.has_marker(*key),
    {
        let bytes = key.price.key_bytes();
        self.marker_has(key.side.key_byte(), key.price.pool_type().key_byte(), &bytes)
    }

    /// Marks the level as listed; nothing else changes. What was there is
    /// kept in the journal.
    pub(crate) fn marker_save(&mut self, side: u8, family: u8, price: &Vec<u8>)
        ensures
            raw_markers(*final(self)) == raw_markers(*old(self)).insert((side, family, price@)),
            raw_pools(*final(self)) == raw_pools(*old(self)),
            raw_snapshots(*final(self)) == raw_snapshots(*old(self)),
            raw_orders(*final(self)) == raw_orders(*old(self)),
            final(self).origin() == old(self).origin(),
    {
        let was = self.store.marker_has(side, family, price);
        let undo = Undo::Marker { side, family, price: rest_of(price, 0), marked: was };
        self.store.marker_save(side, family, price);
        self.journal.push(undo);
        proof {
            assert(undo->Marker_price@ =~= price@);
            assert(restored(self.held(), undo).markers =~= old(self).held().markers);
            assert(restored(self.held(), undo) == old(self).held());
            assert(self.journal@.drop_last() =~= old(self).journal@);
        }
    }

    /// Takes the mark of the level away; nothing else changes. What was
    /// there is kept in the journal.
    pub(crate) fn marker_remove(&mut self, side: u8, family: u8, price: &Vec<u8>)
        ensures
            raw_markers(*final(self)) == raw_markers(*old(self)).remove((side, family, price@)),
            raw_pools(*final(self)) == raw_pools(*old(self)),
            raw_snapshots(*final(self)) == raw_snapshots(*old(self)),
            raw_orders(*final(self)) == raw_orders(*old(self)),
            final(self).origin() == old(self).origin(),
    {
        let was = self.store.marker_has(side, family, price);
        let undo = Undo::Marker { side, family, price: rest_of(price, 0), marked: was };
        self.store.marker_remove(side, family, price);
        self.journal.push(undo);
        proof {
            assert(undo->Marker_price@ =~= price@);
            assert(restored(self.held(), undo).markers =~= old(self).held().markers);
            assert(restored(self.held(), undo) == old(self).held());
            assert(self.journal@.drop_last() =~= old(self).journal@);
        }
    }

    /// Whether a marker is stored for the level.
    pub(crate) fn marker_has(&self, side: u8, family: u8, price: &Vec<u8>) -> (r: bool)
        ensures
            r == raw_markers(*self).contains((side, family, price@)),
    {
        self.store.marker_has(side, family, price)
    }

    /// The price bytes of every marked level under one side and family,
    /// each once, in byte order, rising or falling. An entry of the storage
    /// that cannot be read is passed over.
    pub(crate) fn marker_prices(&self, side: u8, family: u8, ascending: bool) -> (r: Vec<Vec<u8>>)
        ensures
            forall|i: int| 0 <= i < r.len() ==> raw_markers(*self).contains((side, family, (#[trigger] r[i])@)),
            forall|p: Seq<u8>| #[trigger] raw_markers(*self).contains((side, family, p)) ==> exists|i: int|
                0 <= i < r.len() && (#[trigger] r[i])@ == p,
            forall|i: int, j: int| 0 <= i < j < r.len() ==> if ascending {
                bytes_lt((#[trigger] r[i])@, (#[trigger] r[j])@)
            } else {
                bytes_lt(r[j]@, r[i]@)
            },
    {
        let places = self.store.marker_places(side, family, ascending);
        let mut out: Vec<Vec<u8>> = Vec::new();
        let ghost mut from: Seq<int> = Seq::empty();
        let mut i: usize = 0;
        while i < places.len()
            invariant
                0 <= i <= places.len(),
                places@ == marker_scan(self.store, side, family, ascending),
                forall|k: int| 0 <= k < places.len() ==> marker_kept(self.store, side, family, #[trigger] places[k]),
                forall|k: int, l: int| 0 <= k < l < places.len() ==> markers_in_order(#[trigger] places[k], #[trigger] places[l], ascending),
                from.len() == out.len(),
                forall|k: int| 0 <= k < out.len() ==> 0 <= #[trigger] from[k] < i && marker_of(places[from[k]], out[k]@),
                forall|k: int, l: int| 0 <= k < l < out.len() ==> #[trigger] from[k] < #[trigger] from[l],
                forall|k: int| 0 <= k < i && (#[trigger] places[k]) is Some ==> exists|m: int| 0 <= m < out.len() && #[trigger] from[m] == k,
            decreases places.len() - i,
        {
            let ghost shown = out@;
            let ghost marks = from;
            match &places[i] {
                Some(found) => {
                    out.push(rest_of(found, 0));
                    proof {
                        from = marks.push(i as int);
                        assert(out@[out.len() - 1]@ =~= found@);
                        assert forall|k: int| 0 <= k < out.len() implies 0 <= #[trigger] from[k] < i + 1 && marker_of(
                            places[from[k]],
                            out[k]@,
                        ) by {
                            if k < shown.len() {
                                assert(from[k] == marks[k] && out@[k] == shown[k]);
                            }
                        }
                        assert forall|k: int| 0 <= k < i + 1 && (#[trigger] places[k]) is Some implies exists|m: int|
                            0 <= m < out.len() && #[trigger] from[m] == k by {
                            if k < i {
                                let m = choose|m: int| 0 <= m < marks.len() && #[trigger] marks[m] == k;
                                assert(from[m] == k);
                            } else {
                                assert(from[out.len() - 1] == k);
                            }
                        }
                    }
                },
                None => {},
            }
            i += 1;
        }
        proof {
            assert forall|k: int| 0 <= k < out.len() implies raw_markers(*self).contains(
                (side, family, (#[trigger] out[k])@),
            ) by {
                assert(marker_kept(self.store, side, family, places[from[k]]));
            }
            assert forall|p: Seq<u8>| #[trigger] raw_markers(*self).contains((side, family, p)) implies exists|k: int|
                0 <= k < out.len() && (#[trigger] out[k])@ == p by {
                let at = choose|at: int| 0 <= at < places.len() && marker_of(#[trigger] places[at], p);
                let m = choose|m: int| 0 <= m < out.len() && #[trigger] from[m] == at;
                assert(marker_of(places[from[m]], out[m]@));
                assert(out[m]@ == p);
            }
            assert forall|k: int, l: int| 0 <= k < l < out.len() implies if ascending {
                bytes_lt((#[trigger] out[k])@, (#[trigger] out[l])@)
            } else {
                bytes_lt(out[l]@, out[k]@)
            } by {
                assert(from[k] < from[l]);
                assert(markers_in_order(places[from[k]], places[from[l]], ascending));
                assert(marker_of(places[from[k]], out[k]@));
                assert(marker_of(places[from[l]], out[l]@));
            }
        }
        out
    }

    /// The engine pool stored for the level, if there is one.
    pub(crate) fn pool_load(&self, side: u8, family: u8, price: &Vec<u8>) -> (r: Option<EnginePool>)
        ensures
            r == (if raw_pools(*self).contains_key((side, family, price@)) {
                Some(raw_pools(*self)[(side, family, price@)])
            } else {
                None
            }),
    {
        self.store.pool_load(side, family, price)
    }

    /// Stores the engine pool for the level; nothing else changes. What was
    /// there is kept in the journal.
    pub(crate) fn pool_save(&mut self, side: u8, family: u8, price: &Vec<u8>, pool: &EnginePool)
        ensures
            raw_pools(*final(self)) == raw_pools(*old(self)).insert((side, family, price@), *pool),
            raw_markers(*final(self)) == raw_markers(*old(self)),
            raw_snapshots(*final(self)) == raw_snapshots(*old(self)),
            raw_orders(*final(self)) == raw_orders(*old(self)),
            final(self).origin() == old(self).origin(),
    {
        let was = self.store.pool_load(side, family, price);
        let undo = Undo::Pool { side, family, price: rest_of(price, 0), stored: was };
        self.store.pool_save(side, family, price, pool);
        self.journal.push(undo);
        proof {
            assert(undo->Pool_price@ =~= price@);
            assert(restored(self.held(), undo).pools =~= old(self).held().pools);
            assert(restored(self.held(), undo) == old(self).held());
            assert(self.journal@.drop_last() =~= old(self).journal@);
        }
    }

    /// The running sum recorded for the level and the bid's epoch, if there
    /// is one.
    pub(crate) fn snapshot_load(&self, side: u8, family: u8, price: &Vec<u8>, bid: &Bid) -> (r: Option<DecimalScaled>)
        ensures
            r == (if raw_snapshots(*self).contains_key((side, family, price@, bid_epoch(*bid))) {
                Some(raw_snapshots(*self)[(side, family, price@, bid_epoch(*bid))])
            } else {
                None
            }),
    {
        self.store.snapshot_load(side, family, price, bid)
    }

    /// Records the snapshot's sum for the level and the snapshot's epoch;
    /// nothing else changes. What was there is kept in the journal.
    pub(crate) fn snapshot_save(&mut self, side: u8, family: u8, price: &Vec<u8>, snapshot: &SumSnapshot)
        ensures
            raw_snapshots(*final(self)) == raw_snapshots(*old(self)).insert(
                (side, family, price@, snapshot_epoch(*snapshot)),
                snapshot_sum(*snapshot),
            ),
            raw_markers(*final(self)) == raw_markers(*old(self)),
            raw_pools(*final(self)) == raw_pools(*old(self)),
            raw_orders(*final(self)) == raw_orders(*old(self)),
            final(self).origin() == old(self).origin(),
    {
        let was = self.store.snapshot_at(side, family, price, snapshot);
        let undo = Undo::Sum { side, family, price: rest_of(price, 0), at: snapshot.clone(), recorded: was };
        self.store.snapshot_save(side, family, price, snapshot);
        self.journal.push(undo);
        proof {
            assert(undo->Sum_price@ =~= price@);
            assert(restored(self.held(), undo).snapshots =~= old(self).held().snapshots);
            assert(restored(self.held(), undo) == old(self).held());
            assert(self.journal@.drop_last() =~= old(self).journal@);
        }
    }

    /// The order stored for the owner at the level, if there is one.
    pub(crate) fn order_load(&self, owner: &String, side: u8, price: &Vec<u8>) -> (r: Option<(u64, u128, Bid)>)
        ensures
            r == (if raw_orders(*self).contains_key((owner@, side, price@)) {
                Some(raw_orders(*self)[(owner@, side, price@)])
            } else {
                None
            }),
    {
        self.store.order_load(owner, side, price)
    }

    /// Stores the order for the owner at the level; nothing else changes.
    /// What was there is kept in the journal.
    pub(crate) fn order_save(&mut self, owner: &String, side: u8, price: &Vec<u8>, updated_at: u64, offer: u128, bid: &Bid)
        ensures
            raw_orders(*final(self)) == raw_orders(*old(self)).insert(
                (owner@, side, price@),
                (updated_at, offer, *bid),
            ),
            raw_markers(*final(self)) == raw_markers(*old(self)),
            raw_pools(*final(self)) == raw_pools(*old(self)),
            raw_snapshots(*final(self)) == raw_snapshots(*old(self)),
            final(self).origin() == old(self).origin(),
    {
        let was = self.store.order_load(owner, side, price);
        let undo = Undo::Order { owner: owner.clone(), side, price: rest_of(price, 0), kept: was };
        self.store.order_save(owner, side, price, updated_at, offer, bid);
        self.journal.push(undo);
        proof {
            assert(undo->Order_price@ =~= price@);
            assert(restored(self.held(), undo).orders =~= old(self).held().orders);
            assert(restored(self.held(), undo) == old(self).held());
            assert(self.journal@.drop_last() =~= old(self).journal@);
        }
    }

    /// Takes the order of the owner at the level out of the book; nothing
    /// else changes. What was there is kept in the journal.
    pub(crate) fn order_remove(&mut self, owner: &String, side: u8, price: &Vec<u8>)
        ensures
            raw_orders(*final(self)) == raw_orders(*old(self)).remove((owner@, side, price@)),
            raw_markers(*final(self)) == raw_markers(*old(self)),
            raw_pools(*final(self)) == raw_pools(*old(self)),
            raw_snapshots(*final(self)) == raw_snapshots(*old(self)),
            final(self).origin() == old(self).origin(),
    {
        let was = self.store.order_load(owner, side, price);
        let undo = Undo::Order { owner: owner.clone(), side, price: rest_of(price, 0), kept: was };
        self.store.order_remove(owner, side, price);
        self.journal.push(undo);
        proof {
            assert(undo->Order_price@ =~= price@);
            assert(restored(self.held(), undo).orders =~= old(self).held().orders);
            assert(restored(self.held(), undo) == old(self).held());
            assert(self.journal@.drop_last() =~= old(self).journal@);
        }
    }

    /// Every order of an owner over both sides, as the storage yields them:
    /// one place for each entry stored under the owner, by side byte and
    /// then by price bytes. A place holds nothing where the entry cannot be
    /// read or its key is not framed as the keys of orders are.
    pub(crate) fn order_entries(&self, owner: &String) -> (r: Vec<Option<OrderEntry>>)
        ensures
            owner_scanned(*self, owner@, r@),
            scan_holds(*self, owner@, None, true, r@),
    {
        let places = self.store.order_places(owner);
        let mut out: Vec<Option<OrderEntry>> = Vec::new();
        let mut i: usize = 0;
        while i < places.len()
            invariant
                0 <= i <= places.len(),
                out.len() == i,
                places@ == keyed_scan(self.store, owner@),
                forall|k: int| 0 <= k < i ==> spells(places[k], #[trigger] out[k]),
            decreases places.len() - i,
        {
            let ghost shown = out@;
            let place = match &places[i] {
                Some(keyed) => {
                    if keyed.key.len() >= 3 && keyed.key[0] == 0 && keyed.key[1] == 1 {
                        Some(
                            OrderEntry {
                                side: keyed.key[2],
                                price: rest_of(&keyed.key, 3),
                                updated_at: keyed.updated_at,
                                offer: keyed.offer,
                                bid: keyed.bid.clone(),
                            },
                        )
                    } else {
                        None
                    }
                },
                None => None,
            };
            out.push(place);
            proof {
                assert forall|k: int| 0 <= k < i + 1 implies spells(places[k], #[trigger] out[k]) by {
                    if k < i {
                        assert(out@[k] == shown[k]);
                    }
                }
            }
            i += 1;
        }
        proof {
            assert forall|k: int| 0 <= k < out.len() implies place_kept(self.store, owner@, #[trigger] out[k]) by {
                assert(spells(places[k], out[k]));
                assert(keyed_kept(self.store, owner@, places[k]));
            }
            assert forall|s: u8, p: Seq<u8>| #[trigger]
                kept_orders(self.store).contains_key((owner@, s, p)) implies exists|k: int|
                0 <= k < out.len() && place_of(#[trigger] out[k], s, p) by {
                let at = choose|at: int| 0 <= at < places.len() && keyed_of(#[trigger] places[at], s, p);
                lemma_framed_holds(s, p);
                assert(spells(places[at], out[at]));
                assert(place_of(out[at], s, p));
            }
            assert forall|k: int, l: int| 0 <= k < l < out.len() implies places_in_order(
                #[trigger] out[k],
                #[trigger] out[l],
                None,
                true,
            ) by {
                assert(spells(places[k], out[k]));
                assert(spells(places[l], out[l]));
                assert(keyed_in_order(places[k], places[l]));
                if out[k] is Some && out[l] is Some {
                    let a = places[k].unwrap().key@;
                    let b = places[l].unwrap().key@;
                    lemma_unframed_is_framed(a);
                    lemma_unframed_is_framed(b);
                    lemma_framed_order(unframed(a).unwrap().0, unframed(a).unwrap().1, unframed(b).unwrap().0, unframed(b).unwrap().1);
                }
            }
        }
        out
    }

    /// Every order of an owner on one side, as the storage yields them, in
    /// the byte order of the prices, rising or falling; nothing in the place
    /// of an entry that cannot be read.
    pub(crate) fn order_entries_on(&self, owner: &String, side: u8, ascending: bool) -> (r: Vec<Option<OrderEntry>>)
        ensures
            r@ == side_scan(self.store, owner@, side, ascending),
            scan_holds(*self, owner@, Some(side), ascending, r@),
    {
        self.store.order_entries_on(owner, side, ascending)
    }
}

} // verus!
