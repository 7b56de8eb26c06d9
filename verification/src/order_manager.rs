//! The order manager: applies one owner's batch of order instructions and
//! nets what the owner pays and gets.
//!
//! An instruction names a level and the size that the owner's order there
//! shall have. An order that exists is claimed, then grown or shrunk to the
//! size. For a level without an order the manager asks for a cross of the
//! opposite side of the book; the matching itself is done by the swap engine
//! outside this library, and its outcome is handed back to
//! `execute_new_order`, which rests what was not matched.
//!
//! A batch lands as a whole or not at all: where an instruction, the booking
//! of a cross or the settlement fails, every write that the journal of the
//! book holds is taken back.
use crate::config::Config;
use crate::engine::bid_amount;
use crate::engine::bid_current;
use crate::engine::pool_epoch;
use crate::engine::pool_sum;
use crate::engine::bid_epoch;
use crate::engine::bid_filled;
use crate::engine::synced_bid;
use crate::engine::syncs;
use crate::error::ContractError;
use crate::events::event_create_order;
use crate::events::event_increase_order;
use crate::events::event_retract_order;
use crate::events::event_withdraw_order;
use crate::events::shows_order;
use crate::events::Event;
use crate::funds::amount_of;
use crate::funds::distinct_denoms;
use crate::funds::has_denom;
use crate::funds::lemma_amount_absent;
use crate::funds::lemma_amount_at;
use crate::funds::normal;
use crate::funds::Balance;
use crate::funds::Coin;
use crate::market_maker::Commitment;
use crate::math::invert;
use crate::math::inverse_of;
use crate::math::value_ceil;
use crate::math::value_ceil_of;
use crate::math::value_fits;
use crate::order::orders_after_save;
use crate::order::Order;
use crate::pool::committed;
use crate::pool::engine_for;
use crate::pool::level_ready;
use crate::pool::order_ready;
use crate::pool::Pool;
use crate::price::PoolKey;
use crate::price::Price;
use crate::price::Side;
use crate::store::raw_markers;
use crate::store::raw_orders;
use crate::store::raw_pools;
use crate::store::raw_snapshots;
use crate::store::slot_of;
use crate::store::Book;
use crate::tick::aligned;
use vstd::prelude::*;

verus! {

/// The state of one batch: who it is for, and the running totals of what the
/// owner has put in and unlocked (`receive`), of what the orders take
/// (`send`), and of the fees.
#[derive(Clone, Debug, PartialEq)]
pub struct OrderManager {
    pub config: Config,
    pub owner: String,
    pub timestamp: u64,
    /// What came from the owner, from claims and from retractions.
    pub receive: Balance,
    /// What new and increased orders take.
    pub send: Balance,
    pub fees: Balance,
    pub events: Vec<Event>,
    pub messages: Vec<Commitment>,
}

/// What a batch leaves: the balance to return to the owner, the fees, the
/// events in the order of the instructions, and what the market makers are
/// committed to.
#[derive(Debug, PartialEq)]
pub struct ExecutionResult {
    pub withdraw: Balance,
    pub fees: Balance,
    pub events: Vec<Event>,
    pub messages: Vec<Commitment>,
}

/// A cross that the swap engine is asked for: the side of the book to walk,
/// the amount offered, the highest price to pay, and the fee on what is
/// returned.
#[derive(Clone, Copy, Debug, PartialEq, Eq, Structural)]
pub struct CrossRequest {
    pub side: Side,
    pub offer: u128,
    pub limit: u128,
    pub fee: u128,
}

/// What the swap engine made of a cross.
#[derive(Debug, PartialEq)]
pub struct SwapOutcome {
    pub return_amount: u128,
    pub consumed_offer: u128,
    pub remaining_offer: u128,
    pub fee_amount: u128,
    pub events: Vec<Event>,
    pub commitments: Vec<Commitment>,
}

/// How far a batch has come.
#[derive(Clone, Copy, Debug, PartialEq, Eq, Structural)]
pub enum Progress {
    /// Every instruction is applied.
    Done,
    /// The instruction at `at` is for a level without an order: the cross
    /// has to be made and handed to `execute_new_order` before the batch
    /// goes on behind it.
    Cross { at: usize, request: CrossRequest },
}

/// Whether a balance is another one with an amount of one denomination added.
pub open spec fn credited(before: Balance, after: Balance, denom: Seq<char>, amount: nat) -> bool {
    &&& after.wf()
    &&& after.of(denom) == before.of(denom) + amount
    &&& forall|d: Seq<char>| d != denom ==> #[trigger] after.of(d) == before.of(d)
}

/// What rests at a level according to the engine state stored for it.
pub open spec fn resting_at(book: Book, key: PoolKey) -> nat {
    match book.engine_at(key) {
        Some(engine) => crate::engine::pool_total(engine),
        None => 0,
    }
}

/// Whether the owner's order at a level, brought up to date with the stored
/// engine state, has nothing to claim and rests at the target already, or no
/// target is given.
pub open spec fn rests_at_target(book: Book, owner: Seq<char>, key: PoolKey, target: Option<u128>) -> bool {
    match (book.order_at(owner, key), book.engine_at(key)) {
        (Some(stored), Some(engine)) => {
            let bid = synced_bid(engine, stored.2, book.sum_at(key, bid_epoch(stored.2)));
            &&& syncs(engine, stored.2)
            &&& bid_filled(bid) == 0
            &&& bid_amount(bid) <= u128::MAX
            &&& match target {
                Some(t) => t == bid_amount(bid),
                None => true,
            }
        },
        _ => false,
    }
}

/// Whether a list of events is another one with one event more.
pub open spec fn one_more(before: Seq<Event>, after: Seq<Event>) -> bool {
    after.len() == before.len() + 1 && after.drop_last() == before
}

/// The highest price that a new order pays when it crosses the opposite side:
/// its own rate where it crosses the base side, the inverse of its rate where
/// it crosses the quote side.
pub open spec fn limit_of(opposite: Side, rate: u128) -> Option<u128> {
    match opposite {
        Side::Base => Some(rate),
        Side::Quote => if rate == 0 {
            None
        } else {
            Some(inverse_of(rate as nat) as u128)
        },
    }
}

/// What a list of coins holds of a denomination once a coin is put at its
/// end: what it held before, or the new coin where it had no entry.
pub proof fn lemma_amount_push(coins: Seq<Coin>, coin: Coin, denom: Seq<char>)
    ensures
        amount_of(coins.push(coin), denom) == (if has_denom(coins, denom) {
            amount_of(coins, denom)
        } else if coin.denom@ == denom {
            coin.amount as nat
        } else {
            0
        }),
    decreases coins.len(),
{
    let longer = coins.push(coin);
    if coins.len() == 0 {
        assert(longer[0] == coin);
        assert(longer.drop_first().len() == 0);
        assert(amount_of(longer.drop_first(), denom) == 0);
        assert(!has_denom(coins, denom));
    } else {
        let rest = coins.drop_first();
        assert(longer[0] == coins[0]);
        assert(longer.drop_first() =~= rest.push(coin));
        if coins[0].denom@ == denom {
            assert(has_denom(coins, denom));
            assert(amount_of(longer, denom) == coins[0].amount);
            assert(amount_of(coins, denom) == coins[0].amount);
        } else {
            lemma_amount_push(rest, coin, denom);
            assert(amount_of(longer, denom) == amount_of(rest.push(coin), denom));
            assert(amount_of(coins, denom) == amount_of(rest, denom));
            if has_denom(rest, denom) {
                let k = choose|k: int| 0 <= k < rest.len() && (#[trigger] rest[k]).denom@ == denom;
                assert(coins[k + 1].denom@ == denom);
                assert(has_denom(coins, denom));
            }
            if has_denom(coins, denom) {
                let k = choose|k: int| 0 <= k < coins.len() && (#[trigger] coins[k]).denom@ == denom;
                assert(rest[k - 1].denom@ == denom);
                assert(has_denom(rest, denom));
            }
        }
    }
}

/// The maker fee on a claim: the claim valued at the fee, rounded up.
pub open spec fn maker_fee_of(claimed: nat, fee_maker: u128) -> nat {
    if claimed == 0 {
        0
    } else {
        value_ceil_of(claimed, fee_maker as nat)
    }
}

/// The size that an instruction brings an order to: its target, or the size
/// it has where no target is given.
pub open spec fn goal_of(held: nat, target: Option<u128>) -> nat {
    match target {
        Some(t) => t as nat,
        None => held,
    }
}

/// What an instruction adds to an order of size `held`.
pub open spec fn added_of(held: nat, target: Option<u128>) -> nat {
    if goal_of(held, target) > held {
        (goal_of(held, target) - held) as nat
    } else {
        0
    }
}

/// What an instruction takes back from an order of size `held`.
pub open spec fn taken_of(held: nat, target: Option<u128>) -> nat {
    if goal_of(held, target) < held {
        (held - goal_of(held, target)) as nat
    } else {
        0
    }
}

/// The number of events of an instruction for an order that exists: one for
/// a claim, one for a change of size.
pub open spec fn events_of(held: nat, claimed: nat, target: Option<u128>) -> int {
    (if claimed != 0 {
        1int
    } else {
        0int
    }) + (if goal_of(held, target) != held {
        1int
    } else {
        0int
    })
}

/// The failures of an instruction for an order that exists: an amount that
/// does not fit 128 bits, a total that would leave 128 bits, or more taken
/// back than rests in the pool.
pub open spec fn refusal(e: ContractError) -> bool {
    ||| e matches ContractError::ConversionOverflow
    ||| e matches ContractError::Overflow
    ||| e matches ContractError::BidPool(crate::engine::FillError::Overflow)
}

/// The books of a batch after an instruction for an order that exists, of
/// size `held` with `claimed` to claim. The claim goes to the owner less the
/// maker fee, in the denomination that the side asks for; what the order
/// gives back goes to the owner, and what it takes is added to what the
/// orders take, both in the denomination that the side offers. The events
/// are the claim, if any, then the change of size, if any.
pub open spec fn booked(pre: OrderManager, post: OrderManager, side: Side, price: Price, held: nat, claimed: nat, target: Option<u128>) -> bool {
    let ask = pre.config.denoms.spec_ask(side);
    let bid = pre.config.denoms.spec_bid(side);
    let fee = maker_fee_of(claimed, pre.config.fee_maker);
    let n = pre.events@.len() as int;
    &&& fee <= claimed
    &&& forall|d: Seq<char>| #[trigger] post.fees.of(d) == pre.fees.of(d) + (if d == ask {
        fee
    } else {
        0nat
    })
    &&& forall|d: Seq<char>| #[trigger] post.receive.of(d) == pre.receive.of(d) + (if d == ask {
        (claimed - fee) as nat
    } else {
        0nat
    }) + (if d == bid {
        taken_of(held, target)
    } else {
        0nat
    })
    &&& forall|d: Seq<char>| #[trigger] post.send.of(d) == pre.send.of(d) + (if d == bid {
        added_of(held, target)
    } else {
        0nat
    })
    &&& post.events@.len() == n + events_of(held, claimed, target)
    &&& post.events@.take(n) == pre.events@
    &&& claimed != 0 ==> shows_order(
        post.events@[n],
        "rujira-fin/order.withdraw"@,
        pre.owner@,
        side,
        price,
        "amount"@,
        claimed,
    )
    &&& goal_of(held, target) > held ==> shows_order(
        post.events@.last(),
        "rujira-fin/order.increase"@,
        pre.owner@,
        side,
        price,
        "amount"@,
        added_of(held, target),
    )
    &&& goal_of(held, target) < held ==> shows_order(
        post.events@.last(),
        "rujira-fin/order.retract"@,
        pre.owner@,
        side,
        price,
        "amount"@,
        taken_of(held, target),
    )
}

/// Whether an instruction for an order that exists can be carried out: the
/// claim can be booked, the amounts stay within 128 bits, and the pool holds
/// what the order gives back.
pub open spec fn can_apply(pre: OrderManager, side: Side, held: nat, claimed: nat, target: Option<u128>, total: nat) -> bool {
    let ask = pre.config.denoms.spec_ask(side);
    let bid = pre.config.denoms.spec_bid(side);
    let fee = maker_fee_of(claimed, pre.config.fee_maker);
    let got: nat = if ask == bid {
        (claimed - fee) as nat
    } else {
        0
    };
    &&& claimed <= u128::MAX
    &&& claimed != 0 ==> pre.can_book_claim(side, claimed)
    &&& target is Some ==> {
        &&& held <= u128::MAX
        &&& goal_of(held, target) > held ==> {
            &&& pre.send.of(bid) + added_of(held, target) <= u128::MAX
            &&& total + added_of(held, target) <= u128::MAX
        }
        &&& goal_of(held, target) < held ==> {
            &&& pre.receive.of(bid) + got + taken_of(held, target) <= u128::MAX
            &&& taken_of(held, target) <= total
        }
    }
}

/// The book after an instruction for an order that exists, of size `held`
/// with `claimed` to claim, at a level where `total` rests. The order is at
/// its new size with nothing left to claim, or gone once it holds nothing;
/// the level rests what it did, more what was added, less what was taken
/// back, and is listed exactly if something rests in it; nothing else in the
/// book changes.
pub open spec fn stored(before: Book, after: Book, owner: Seq<char>, key: PoolKey, was: (u64, u128, rujira_rs::bid_pool::Bid), timestamp: u64, held: nat, claimed: nat, target: Option<u128>, total: nat) -> bool {
    let goal = goal_of(held, target);
    let level = slot_of(key);
    let place = (owner, key.side.spec_key_byte(), key.price.spec_key_bytes());
    &&& raw_snapshots(after) == raw_snapshots(before)
    &&& raw_orders(after).remove(place) == raw_orders(before).remove(place)
    &&& raw_markers(after).remove(level) == raw_markers(before).remove(level)
    &&& raw_pools(after).remove(level) == raw_pools(before).remove(level)
    &&& if claimed == 0 && goal == held {
        after == before
    } else {
        match after.order_at(owner, key) {
            None => goal == 0,
            Some(now) => {
                &&& goal != 0
                &&& bid_amount(now.2) == goal
                &&& bid_filled(now.2) == 0
                &&& now.0 == (if goal != held {
                    timestamp
                } else {
                    was.0
                })
                &&& now.1 as nat == (if goal != held {
                    goal
                } else {
                    was.1 as nat
                })
            },
        }
    }
    &&& if goal == held {
        raw_markers(after) == raw_markers(before) && raw_pools(after) == raw_pools(before)
    } else {
        &&& after.engine_at(key) is Some
        &&& resting_at(after, key) == total + added_of(held, target) - taken_of(held, target)
        &&& after.has_marker(key) == (resting_at(after, key) != 0)
    }
}

/// What an instruction does to an order that exists, given the engine state
/// of the pool loaded for its level. The order is brought up to date, which
/// fails where the engine refuses it; then it is claimed and brought to its
/// target, which succeeds exactly if `can_apply` holds. An instruction that
/// fails changes nothing.
pub open spec fn existing_with(
    pre: OrderManager,
    before: Book,
    post: OrderManager,
    after: Book,
    r: Result<Option<CrossRequest>, ContractError>,
    side: Side,
    price: Price,
    target: Option<u128>,
    was: (u64, u128, rujira_rs::bid_pool::Bid),
    engine: rujira_rs::bid_pool::Pool,
) -> bool {
    let key = PoolKey { side, price };
    if !syncs(engine, was.2) {
        (r matches Err(ContractError::Std)) && post == pre && after == before
    } else {
        let bid = synced_bid(engine, was.2, before.sum_at(key, bid_epoch(was.2)));
        let held = bid_amount(bid);
        let claimed = bid_filled(bid);
        let total = crate::engine::pool_total(engine);
        &&& r is Ok <==> can_apply(pre, side, held, claimed, target, total)
        &&& r matches Err(e) ==> refusal(e) && post == pre && after == before
        &&& r is Ok ==> {
            &&& r matches Ok(None)
            &&& booked(pre, post, side, price, held, claimed, target)
            &&& stored(before, after, pre.owner@, key, was, pre.timestamp, held, claimed, target, total)
        }
    }
}

/// What an instruction does where the owner has an order at the level: what
/// `existing_with` says, with the engine state of the pool loaded for the
/// level, which is the state stored for it, or that of a pool at the start
/// of its first epoch.
pub open spec fn existing_outcome(
    pre: OrderManager,
    before: Book,
    post: OrderManager,
    after: Book,
    r: Result<Option<CrossRequest>, ContractError>,
    side: Side,
    price: Price,
    target: Option<u128>,
) -> bool {
    let key = PoolKey { side, price };
    match before.order_at(pre.owner@, key) {
        Some(was) => existing_with(pre, before, post, after, r, side, price, target, was, engine_for(before, key)),
        None => true,
    }
}

/// Whether a price is a fixed one with more significant figures than a tick
/// allows.
pub open spec fn misaligned(tick: crate::tick::Tick, price: Price) -> bool {
    match price {
        Price::Fixed(v) => !aligned(tick.size as nat, v as nat),
        Price::Oracle(_) => false,
    }
}

/// What one instruction of a batch does: it takes the manager from `pre` to
/// `post` and the book from `before` to `after`, and gives `r`.
///
/// A fixed price that is not aligned to the tick is refused, and so is a
/// price without a rate. Where the owner has an order at the level, it is
/// brought up to date, claimed, and brought to its target. Where there is
/// none, nothing changes: without a target, or with a target of zero,
/// nothing is to be done; otherwise the cross to make is returned: the
/// opposite side, the target as the offer, the order's own rate as the limit
/// (inverted where the quote side is crossed), and the taker fee. An
/// instruction that fails changes nothing.
pub open spec fn instructed(
    pre: OrderManager,
    before: Book,
    post: OrderManager,
    after: Book,
    instruction: (Side, Price, Option<u128>),
    oracle: Option<u128>,
    r: Result<Option<CrossRequest>, ContractError>,
) -> bool {
    let (side, price, target) = instruction;
    let key = PoolKey { side, price };
    &&& post.wf()
    &&& post.config == pre.config
    &&& post.owner == pre.owner
    &&& post.timestamp == pre.timestamp
    &&& post.messages == pre.messages
    &&& if misaligned(pre.config.tick, price) {
        &&& r matches Err(ContractError::Tick { price: p }) && Price::Fixed(p) == price
        &&& post == pre
        &&& after == before
    } else if price.spec_rate(oracle) is None {
        (r matches Err(ContractError::Oracle)) && post == pre && after == before
    } else {
        match before.order_at(pre.owner@, key) {
            Some(_) => existing_outcome(pre, before, post, after, r, side, price, target),
            None => {
                &&& post == pre
                &&& after == before
                &&& if target is None || target == Some(0u128) {
                    r matches Ok(None)
                } else {
                    match limit_of(side.spec_other(), price.spec_rate(oracle).unwrap()) {
                        Some(limit) => r == Ok::<Option<CrossRequest>, ContractError>(
                            Some(
                                CrossRequest {
                                    side: side.spec_other(),
                                    offer: target.unwrap(),
                                    limit,
                                    fee: pre.config.fee_taker,
                                },
                            ),
                        ),
                        None => r matches Err(ContractError::Swap),
                    }
                }
            },
        }
    }
}

/// Whether one instruction of a batch has been applied in full, with nothing
/// left to do for it.
pub open spec fn applied(
    pre: OrderManager,
    before: Book,
    post: OrderManager,
    after: Book,
    instruction: (Side, Price, Option<u128>),
    oracle: Option<u128>,
) -> bool {
    instructed(pre, before, post, after, instruction, oracle, Ok::<Option<CrossRequest>, ContractError>(None))
}

/// Whether a run of managers and books is what a batch goes through from its
/// instruction `from` on, one instruction applied after the other.
pub open spec fn applied_in_turn(
    managers: Seq<OrderManager>,
    books: Seq<Book>,
    orders: Seq<(Side, Price, Option<u128>)>,
    from: int,
    oracle: Option<u128>,
) -> bool {
    &&& managers.len() == books.len()
    &&& managers.len() >= 1
    &&& from + managers.len() - 1 <= orders.len()
    &&& forall|k: int|
        0 <= k < managers.len() - 1 ==> applied(
            managers[k],
            books[k],
            #[trigger] managers[k + 1],
            books[k + 1],
            orders[from + k],
            oracle,
        )
}

/// What a batch does from its instruction `from` on. Its instructions are
/// applied one after the other, each to what the one before has left, up to
/// the first that is not applied in full. Where all are applied, the batch is
/// done. Where one asks for a cross, the batch stops before it and returns
/// the cross. Where one fails, the batch fails as that one does, and every
/// write that the book's journal holds is taken back: the book holds what
/// it held when the journal was last empty, before the batch began.
pub open spec fn batch_outcome(
    pre: OrderManager,
    before: Book,
    post: OrderManager,
    after: Book,
    orders: Seq<(Side, Price, Option<u128>)>,
    from: int,
    oracle: Option<u128>,
    r: Result<Progress, ContractError>,
) -> bool {
    exists|managers: Seq<OrderManager>, books: Seq<Book>|
        {
            let k = from + managers.len() - 1;
            &&& #[trigger] applied_in_turn(managers, books, orders, from, oracle)
            &&& managers[0] == pre
            &&& books[0] == before
            &&& match r {
                Ok(Progress::Done) => k == orders.len() && managers.last() == post && books.last() == after,
                Ok(Progress::Cross { at, request }) => {
                    &&& at == k
                    &&& k < orders.len()
                    &&& instructed(
                        managers.last(),
                        books.last(),
                        post,
                        after,
                        orders[k],
                        oracle,
                        Ok::<Option<CrossRequest>, ContractError>(Some(request)),
                    )
                },
                Err(e) => {
                    &&& k < orders.len()
                    &&& instructed(
                        managers.last(),
                        books.last(),
                        post,
                        books.last(),
                        orders[k],
                        oracle,
                        Err::<Option<CrossRequest>, ContractError>(e),
                    )
                    &&& after.held() == before.origin()
                    &&& after.journal@.len() == 0
                },
            }
        }
}

/// Where the engine state of the level is stored, it is the one that an
/// applied instruction for an order that exists went by.
pub proof fn lemma_applied_existing(
    pre: OrderManager,
    before: Book,
    post: OrderManager,
    after: Book,
    instruction: (Side, Price, Option<u128>),
    oracle: Option<u128>,
)
    requires
        applied(pre, before, post, after, instruction, oracle),
        before.order_at(pre.owner@, (PoolKey { side: instruction.0, price: instruction.1 })) is Some,
        before.engine_at((PoolKey { side: instruction.0, price: instruction.1 })) is Some,
    ensures
        existing_with(
            pre,
            before,
            post,
            after,
            Ok::<Option<CrossRequest>, ContractError>(None),
            instruction.0,
            instruction.1,
            instruction.2,
            before.order_at(pre.owner@, (PoolKey { side: instruction.0, price: instruction.1 })).unwrap(),
            before.engine_at((PoolKey { side: instruction.0, price: instruction.1 })).unwrap(),
        ),
{
    let r = Ok::<Option<CrossRequest>, ContractError>(None);
    assert(existing_outcome(pre, before, post, after, r, instruction.0, instruction.1, instruction.2));
}

/// An applied instruction whose order rests at its target already, with
/// nothing to claim, changes nothing: no event, no movement of funds, and
/// the book as it was.
pub proof fn lemma_at_target_changes_nothing(
    pre: OrderManager,
    before: Book,
    post: OrderManager,
    after: Book,
    instruction: (Side, Price, Option<u128>),
    oracle: Option<u128>,
)
    requires
        applied(pre, before, post, after, instruction, oracle),
        rests_at_target(
            before,
            pre.owner@,
            (PoolKey { side: instruction.0, price: instruction.1 }),
            instruction.2,
        ),
    ensures
        after == before,
        post.events@ == pre.events@,
        post.messages == pre.messages,
        forall|d: Seq<char>| #[trigger] post.receive.of(d) == pre.receive.of(d),
        forall|d: Seq<char>| #[trigger] post.send.of(d) == pre.send.of(d),
        forall|d: Seq<char>| #[trigger] post.fees.of(d) == pre.fees.of(d),
{
    let key = PoolKey { side: instruction.0, price: instruction.1 };
    let was = before.order_at(pre.owner@, key).unwrap();
    let engine = before.engine_at(key).unwrap();
    lemma_applied_existing(pre, before, post, after, instruction, oracle);
    let synced = synced_bid(engine, was.2, before.sum_at(key, bid_epoch(was.2)));
    let held = bid_amount(synced);
    assert(booked(pre, post, instruction.0, instruction.1, held, 0, instruction.2));
    assert(post.events@.take(pre.events@.len() as int) =~= post.events@);
}

/// A batch of one instruction whose order rests at its target already, with
/// nothing to claim, is done and changes nothing: no event, no movement of
/// funds, and the book as it was. Handing the same batch in again gives the
/// same.
pub proof fn lemma_batch_at_target_changes_nothing(
    pre: OrderManager,
    before: Book,
    post: OrderManager,
    after: Book,
    orders: Seq<(Side, Price, Option<u128>)>,
    oracle: Option<u128>,
    r: Result<Progress, ContractError>,
)
    requires
        orders.len() == 1,
        batch_outcome(pre, before, post, after, orders, 0, oracle, r),
        !misaligned(pre.config.tick, orders[0].1),
        orders[0].1.spec_rate(oracle) is Some,
        rests_at_target(before, pre.owner@, (PoolKey { side: orders[0].0, price: orders[0].1 }), orders[0].2),
    ensures
        r == Ok::<Progress, ContractError>(Progress::Done),
        after == before,
        post.events@ == pre.events@,
        post.messages == pre.messages,
        forall|d: Seq<char>| #[trigger] post.receive.of(d) == pre.receive.of(d),
        forall|d: Seq<char>| #[trigger] post.send.of(d) == pre.send.of(d),
        forall|d: Seq<char>| #[trigger] post.fees.of(d) == pre.fees.of(d),
        rests_at_target(after, post.owner@, (PoolKey { side: orders[0].0, price: orders[0].1 }), orders[0].2),
{
    let (managers, books) = choose|managers: Seq<OrderManager>, books: Seq<Book>|
        {
            let k = 0 + managers.len() - 1;
            &&& #[trigger] applied_in_turn(managers, books, orders, 0, oracle)
            &&& managers[0] == pre
            &&& books[0] == before
            &&& match r {
                Ok(Progress::Done) => k == orders.len() && managers.last() == post && books.last() == after,
                Ok(Progress::Cross { at, request }) => {
                    &&& at == k
                    &&& k < orders.len()
                    &&& instructed(
                        managers.last(),
                        books.last(),
                        post,
                        after,
                        orders[k],
                        oracle,
                        Ok::<Option<CrossRequest>, ContractError>(Some(request)),
                    )
                },
                Err(e) => {
                    &&& k < orders.len()
                    &&& instructed(
                        managers.last(),
                        books.last(),
                        post,
                        books.last(),
                        orders[k],
                        oracle,
                        Err::<Option<CrossRequest>, ContractError>(e),
                    )
                    &&& after.held() == before.origin()
                    &&& after.journal@.len() == 0
                },
            }
        };
    let side = orders[0].0;
    let price = orders[0].1;
    let target = orders[0].2;
    let key = PoolKey { side, price };
    let was = before.order_at(pre.owner@, key).unwrap();
    let engine = before.engine_at(key).unwrap();
    let bid = synced_bid(engine, was.2, before.sum_at(key, bid_epoch(was.2)));
    assert(can_apply(pre, side, bid_amount(bid), 0, target, crate::engine::pool_total(engine)));
    if managers.len() == 1 {
        let step: Result<Option<CrossRequest>, ContractError> = match r {
            Ok(Progress::Cross { at, request }) => Ok(Some(request)),
            Err(e) => Err(e),
            Ok(Progress::Done) => Ok(None),
        };
        assert(instructed(pre, before, post, after, orders[0], oracle, step));
        assert(existing_outcome(pre, before, post, after, step, side, price, target));
        assert(existing_with(pre, before, post, after, step, side, price, target, was, engine));
        assert(false);
    } else {
        assert(managers.len() == 2);
        let k: int = 0;
        assert(applied(managers[k], books[k], managers[k + 1], books[k + 1], orders[0 + k], oracle));
        lemma_at_target_changes_nothing(pre, before, managers[1], books[1], orders[0], oracle);
    }
}

/// What the owner's order at a level has to claim once it is brought up to
/// date with the stored engine state.
pub open spec fn claimable_at(book: Book, owner: Seq<char>, key: PoolKey) -> nat {
    match (book.order_at(owner, key), book.engine_at(key)) {
        (Some(was), Some(engine)) => bid_filled(
            synced_bid(engine, was.2, book.sum_at(key, bid_epoch(was.2))),
        ),
        _ => 0,
    }
}

/// An applied instruction neither makes nor loses funds. In the denomination
/// that its side offers, what the orders take more, less what the owner gets
/// back, is what the level rests more. In the denomination that its side
/// asks for, what the owner gets and the fees together are what the order
/// had to claim. No other denomination moves.
pub proof fn lemma_instruction_conserves(
    pre: OrderManager,
    before: Book,
    post: OrderManager,
    after: Book,
    instruction: (Side, Price, Option<u128>),
    oracle: Option<u128>,
)
    requires
        applied(pre, before, post, after, instruction, oracle),
        pre.config.denoms.base@ != pre.config.denoms.quote@,
        before.order_at(pre.owner@, (PoolKey { side: instruction.0, price: instruction.1 })) is Some
            ==> before.engine_at((PoolKey { side: instruction.0, price: instruction.1 })) is Some,
    ensures
        ({
            let key = PoolKey { side: instruction.0, price: instruction.1 };
            let bid = pre.config.denoms.spec_bid(instruction.0);
            let ask = pre.config.denoms.spec_ask(instruction.0);
            &&& post.send.of(bid) + pre.receive.of(bid) + resting_at(before, key) == pre.send.of(bid)
                + post.receive.of(bid) + resting_at(after, key)
            &&& post.receive.of(ask) + post.fees.of(ask) == pre.receive.of(ask) + pre.fees.of(ask)
                + claimable_at(before, pre.owner@, key)
            &&& post.send.of(ask) == pre.send.of(ask)
            &&& post.fees.of(bid) == pre.fees.of(bid)
            &&& forall|d: Seq<char>|
                d != bid && d != ask ==> {
                    &&& #[trigger] post.receive.of(d) == pre.receive.of(d)
                    &&& post.send.of(d) == pre.send.of(d)
                    &&& post.fees.of(d) == pre.fees.of(d)
                }
        }),
{
    let key = PoolKey { side: instruction.0, price: instruction.1 };
    let bid = pre.config.denoms.spec_bid(instruction.0);
    let ask = pre.config.denoms.spec_ask(instruction.0);
    if before.order_at(pre.owner@, key) is Some {
        let was = before.order_at(pre.owner@, key).unwrap();
        let engine = before.engine_at(key).unwrap();
        lemma_applied_existing(pre, before, post, after, instruction, oracle);
        let synced = synced_bid(engine, was.2, before.sum_at(key, bid_epoch(was.2)));
        let held = bid_amount(synced);
        let claimed = bid_filled(synced);
        assert(booked(pre, post, instruction.0, instruction.1, held, claimed, instruction.2));
        assert(post.send.of(bid) == pre.send.of(bid) + added_of(held, instruction.2));
        assert(post.receive.of(bid) == pre.receive.of(bid) + taken_of(held, instruction.2));
        assert(post.receive.of(ask) == pre.receive.of(ask) + (claimed - maker_fee_of(
            claimed,
            pre.config.fee_maker,
        )));
        assert(post.fees.of(ask) == pre.fees.of(ask) + maker_fee_of(claimed, pre.config.fee_maker));
        assert(post.send.of(ask) == pre.send.of(ask));
        assert(post.fees.of(bid) == pre.fees.of(bid));
        assert forall|d: Seq<char>| d != bid && d != ask implies {
            &&& #[trigger] post.receive.of(d) == pre.receive.of(d)
            &&& post.send.of(d) == pre.send.of(d)
            &&& post.fees.of(d) == pre.fees.of(d)
        } by {}
    }
}

/// An applied instruction leaves no order without the engine state of its
/// level.
pub proof fn lemma_applied_keeps_backed(
    pre: OrderManager,
    before: Book,
    post: OrderManager,
    after: Book,
    instruction: (Side, Price, Option<u128>),
    oracle: Option<u128>,
)
    requires
        applied(pre, before, post, after, instruction, oracle),
        before.backed(),
    ensures
        after.backed(),
{
    let key = PoolKey { side: instruction.0, price: instruction.1 };
    let place = (pre.owner@, key.side.spec_key_byte(), key.price.spec_key_bytes());
    let level = slot_of(key);
    if before.order_at(pre.owner@, key) is Some {
        assert(before.engine_at(key) is Some);
        lemma_applied_existing(pre, before, post, after, instruction, oracle);
        assert forall|owner: Seq<char>, k: PoolKey| #[trigger] after.order_at(owner, k) is Some implies after.engine_at(
            k,
        ) is Some by {
            let spot = (owner, k.side.spec_key_byte(), k.price.spec_key_bytes());
            if spot != place {
                assert(raw_orders(after).remove(place).contains_key(spot));
                assert(raw_orders(before).remove(place).contains_key(spot));
                assert(before.order_at(owner, k) is Some);
            } else {
                crate::store::lemma_slot_injective(k, key);
            }
            assert(before.engine_at(k) is Some);
            if slot_of(k) != level {
                assert(raw_pools(before).remove(level).contains_key(slot_of(k)));
                assert(raw_pools(after).remove(level).contains_key(slot_of(k)));
            } else {
                crate::store::lemma_slot_injective(k, key);
            }
        }
    }
}

/// Whether the outcome of a cross accounts for what was offered: what it
/// used and what it left are the offer.
pub open spec fn accounts_for(outcome: SwapOutcome, offer: u128) -> bool {
    outcome.consumed_offer + outcome.remaining_offer == offer
}

/// What resting a new order after its cross of `offer` comes to. The cross
/// accounts for the offer. What the cross used, if it returned anything,
/// and what it left of the target are added to what the orders take; what
/// it returned is added to what the owner gets, and its events and
/// commitments are taken over; what it left rests at the level as the
/// owner's order, and an event reports the new order.
pub open spec fn rested(
    pre: OrderManager,
    before: Book,
    post: OrderManager,
    after: Book,
    side: Side,
    price: Price,
    offer: u128,
    outcome: SwapOutcome,
) -> bool {
    let ask = pre.config.denoms.spec_ask(side);
    let bid = pre.config.denoms.spec_bid(side);
    &&& accounts_for(outcome, offer)
    &&& post.config == pre.config
    &&& post.owner == pre.owner
    &&& post.fees == pre.fees
    &&& credited(
        pre.send,
        post.send,
        bid,
        OrderManager::cross_used(outcome) + outcome.remaining_offer as nat,
    )
    &&& outcome.return_amount == 0 ==> {
        &&& post.receive == pre.receive
        &&& post.messages == pre.messages
        &&& one_more(pre.events@, post.events@)
    }
    &&& outcome.return_amount != 0 ==> {
        &&& credited(pre.receive, post.receive, ask, outcome.return_amount as nat)
        &&& post.messages@ == pre.messages@ + outcome.commitments@
        &&& post.events@.len() == pre.events@.len() + outcome.events@.len() + 1
        &&& post.events@.drop_last() == pre.events@ + outcome.events@
    }
    &&& shows_order(
        post.events@.last(),
        "rujira-fin/order.create"@,
        pre.owner@,
        side,
        price,
        "offer"@,
        outcome.remaining_offer as nat,
    )
    &&& match after.order_at(pre.owner@, (PoolKey { side, price })) {
        None => outcome.remaining_offer == 0,
        Some(stored) => {
            &&& outcome.remaining_offer != 0
            &&& stored.0 == pre.timestamp
            &&& stored.1 == outcome.remaining_offer
            &&& bid_amount(stored.2) == outcome.remaining_offer
            &&& bid_filled(stored.2) == 0
        },
    }
    &&& resting_at(after, (PoolKey { side, price })) == resting_at(
        before,
        (PoolKey { side, price }),
    ) + outcome.remaining_offer
    &&& after.has_marker((PoolKey { side, price })) == (resting_at(
        after,
        (PoolKey { side, price }),
    ) != 0)
}

/// Resting a new order after its cross neither makes nor loses funds. In
/// the denomination that its side offers, what the orders take more is what
/// the cross used and what the level rests more: the whole offer, where the
/// cross returned something, and what it left of the offer, where it did
/// not. In the denomination that its side asks for, the owner gets what the
/// cross returned. The fees do not move, and no other denomination does.
pub proof fn lemma_cross_conserves(
    pre: OrderManager,
    before: Book,
    post: OrderManager,
    after: Book,
    side: Side,
    price: Price,
    offer: u128,
    outcome: SwapOutcome,
)
    requires
        rested(pre, before, post, after, side, price, offer, outcome),
        pre.config.denoms.base@ != pre.config.denoms.quote@,
    ensures
        ({
            let key = PoolKey { side, price };
            let bid = pre.config.denoms.spec_bid(side);
            let ask = pre.config.denoms.spec_ask(side);
            &&& post.send.of(bid) - pre.send.of(bid) == OrderManager::cross_used(outcome) + (resting_at(after, key)
                - resting_at(before, key))
            &&& post.send.of(bid) - pre.send.of(bid) == (if outcome.return_amount != 0 {
                offer as int
            } else {
                outcome.remaining_offer as int
            })
            &&& post.receive.of(bid) == pre.receive.of(bid)
            &&& post.receive.of(ask) - pre.receive.of(ask) == (if outcome.return_amount != 0 {
                outcome.return_amount as int
            } else {
                0
            })
            &&& post.send.of(ask) == pre.send.of(ask)
            &&& forall|d: Seq<char>|
                d != bid && d != ask ==> {
                    &&& #[trigger] post.receive.of(d) == pre.receive.of(d)
                    &&& post.send.of(d) == pre.send.of(d)
                }
            &&& forall|d: Seq<char>| #[trigger] post.fees.of(d) == pre.fees.of(d)
        }),
{
}

/// What an applied instruction claims for an order is split between the
/// owner and the fees and nothing is left over: the maker fee on what the
/// order had to claim, rounded up, goes to the fees, and the rest to the
/// owner.
pub proof fn lemma_claim_is_split(
    pre: OrderManager,
    before: Book,
    post: OrderManager,
    after: Book,
    instruction: (Side, Price, Option<u128>),
    oracle: Option<u128>,
)
    requires
        applied(pre, before, post, after, instruction, oracle),
        pre.config.denoms.base@ != pre.config.denoms.quote@,
        before.order_at(pre.owner@, (PoolKey { side: instruction.0, price: instruction.1 })) is Some
            ==> before.engine_at((PoolKey { side: instruction.0, price: instruction.1 })) is Some,
    ensures
        ({
            let key = PoolKey { side: instruction.0, price: instruction.1 };
            let ask = pre.config.denoms.spec_ask(instruction.0);
            let claimed = claimable_at(before, pre.owner@, key);
            let fee = maker_fee_of(claimed, pre.config.fee_maker);
            &&& fee <= claimed
            &&& post.fees.of(ask) == pre.fees.of(ask) + fee
            &&& post.receive.of(ask) == pre.receive.of(ask) + (claimed - fee)
        }),
{
    let key = PoolKey { side: instruction.0, price: instruction.1 };
    let ask = pre.config.denoms.spec_ask(instruction.0);
    let bid = pre.config.denoms.spec_bid(instruction.0);
    if before.order_at(pre.owner@, key) is Some {
        let was = before.order_at(pre.owner@, key).unwrap();
        let engine = before.engine_at(key).unwrap();
        lemma_applied_existing(pre, before, post, after, instruction, oracle);
        let synced = synced_bid(engine, was.2, before.sum_at(key, bid_epoch(was.2)));
        assert(booked(pre, post, instruction.0, instruction.1, bid_amount(synced), bid_filled(synced), instruction.2));
        assert(ask != bid);
    }
}

/// What an instruction moves in a denomination: what its level rests more,
/// where its side offers the denomination, less what its order had to claim,
/// where its side asks for the denomination.
pub open spec fn step_net(
    before: Book,
    after: Book,
    pre: OrderManager,
    instruction: (Side, Price, Option<u128>),
    denom: Seq<char>,
) -> int {
    let key = PoolKey { side: instruction.0, price: instruction.1 };
    (if pre.config.denoms.spec_bid(instruction.0) == denom {
        resting_at(after, key) - resting_at(before, key)
    } else {
        0
    }) - (if pre.config.denoms.spec_ask(instruction.0) == denom {
        claimable_at(before, pre.owner@, key) as int
    } else {
        0
    })
}

/// What the first `n` instructions of a run move in a denomination.
pub open spec fn batch_net(
    managers: Seq<OrderManager>,
    books: Seq<Book>,
    orders: Seq<(Side, Price, Option<u128>)>,
    from: int,
    denom: Seq<char>,
    n: int,
) -> int
    decreases n,
{
    if n <= 0 {
        0
    } else {
        batch_net(managers, books, orders, from, denom, n - 1) + step_net(
            books[n - 1],
            books[n],
            managers[n - 1],
            orders[from + n - 1],
            denom,
        )
    }
}

/// What a batch holds of a denomination on balance: what its orders take,
/// less what the owner gets and the fees.
pub open spec fn held_by(manager: OrderManager, denom: Seq<char>) -> int {
    manager.send.of(denom) - manager.receive.of(denom) - manager.fees.of(denom)
}

/// Over any run of applied instructions, funds are neither made nor lost: in
/// every denomination, what the batch holds more on balance is what the
/// levels rest more, less what the orders had to claim. What is claimed
/// reaches the owner and the fees and nothing else; what the orders take
/// rests in the book.
pub proof fn lemma_batch_conserves(
    managers: Seq<OrderManager>,
    books: Seq<Book>,
    orders: Seq<(Side, Price, Option<u128>)>,
    from: int,
    oracle: Option<u128>,
    denom: Seq<char>,
    n: int,
)
    requires
        applied_in_turn(managers, books, orders, from, oracle),
        0 <= from,
        0 <= n <= managers.len() - 1,
        managers[0].config.denoms.base@ != managers[0].config.denoms.quote@,
        books[0].backed(),
    ensures
        managers[n].config == managers[0].config,
        managers[n].owner == managers[0].owner,
        books[n].backed(),
        held_by(managers[n], denom) - held_by(managers[0], denom) == batch_net(
            managers,
            books,
            orders,
            from,
            denom,
            n,
        ),
    decreases n,
{
    if n > 0 {
        lemma_batch_conserves(managers, books, orders, from, oracle, denom, n - 1);
        let k = n - 1;
        assert(applied(managers[k], books[k], managers[k + 1], books[k + 1], orders[from + k], oracle));
        let pre = managers[n - 1];
        let post = managers[n];
        lemma_applied_keeps_backed(pre, books[n - 1], post, books[n], orders[from + n - 1], oracle);
        lemma_instruction_conserves(pre, books[n - 1], post, books[n], orders[from + n - 1], oracle);
    }
}

/// Whether one instruction of a batch has been carried out in full: applied
/// as it stands, or, where it asked for a cross, crossed and rested. For an
/// instruction that was crossed, `cross` holds the book as the cross left it
/// and what the cross came to.
pub open spec fn carried(
    pre: OrderManager,
    before: Book,
    post: OrderManager,
    after: Book,
    instruction: (Side, Price, Option<u128>),
    oracle: Option<u128>,
    cross: Option<(Book, SwapOutcome)>,
) -> bool {
    match cross {
        None => applied(pre, before, post, after, instruction, oracle),
        Some((mid, outcome)) => {
            &&& instruction.2 is Some
            &&& exists|request: CrossRequest| #[trigger]
                instructed(
                    pre,
                    before,
                    pre,
                    before,
                    instruction,
                    oracle,
                    Ok::<Option<CrossRequest>, ContractError>(Some(request)),
                )
            &&& rested(pre, mid, post, after, instruction.0, instruction.1, instruction.2.unwrap(), outcome)
        },
    }
}

/// What an instruction that was carried out moves in a denomination: what
/// its level rests more and what its cross used, where its side offers the
/// denomination, less what its order had to claim and what its cross
/// returned, where its side asks for the denomination.
pub open spec fn carried_net(
    before: Book,
    after: Book,
    pre: OrderManager,
    instruction: (Side, Price, Option<u128>),
    cross: Option<(Book, SwapOutcome)>,
    denom: Seq<char>,
) -> int {
    match cross {
        None => step_net(before, after, pre, instruction, denom),
        Some((mid, outcome)) => {
            let key = PoolKey { side: instruction.0, price: instruction.1 };
            (if pre.config.denoms.spec_bid(instruction.0) == denom {
                OrderManager::cross_used(outcome) + resting_at(after, key) - resting_at(mid, key)
            } else {
                0
            }) - (if pre.config.denoms.spec_ask(instruction.0) == denom && outcome.return_amount != 0 {
                outcome.return_amount as int
            } else {
                0
            })
        },
    }
}

/// Whether a run of managers and books is what a batch goes through from
/// its instruction `from` on, one instruction carried out after the other,
/// with the crosses that were made on the way.
pub open spec fn carried_in_turn(
    managers: Seq<OrderManager>,
    books: Seq<Book>,
    crosses: Seq<Option<(Book, SwapOutcome)>>,
    orders: Seq<(Side, Price, Option<u128>)>,
    from: int,
    oracle: Option<u128>,
) -> bool {
    &&& managers.len() == books.len()
    &&& managers.len() == crosses.len() + 1
    &&& from + crosses.len() <= orders.len()
    &&& forall|k: int|
        0 <= k < crosses.len() ==> carried(
            managers[k],
            books[k],
            #[trigger] managers[k + 1],
            books[k + 1],
            orders[from + k],
            oracle,
            crosses[k],
        )
}

/// What the first `n` instructions of a run with crosses move in a
/// denomination.
pub open spec fn run_net(
    managers: Seq<OrderManager>,
    books: Seq<Book>,
    crosses: Seq<Option<(Book, SwapOutcome)>>,
    orders: Seq<(Side, Price, Option<u128>)>,
    from: int,
    denom: Seq<char>,
    n: int,
) -> int
    decreases n,
{
    if n <= 0 {
        0
    } else {
        run_net(managers, books, crosses, orders, from, denom, n - 1) + carried_net(
            books[n - 1],
            books[n],
            managers[n - 1],
            orders[from + n - 1],
            crosses[n - 1],
            denom,
        )
    }
}

/// Over any run of instructions that were carried out, with or without a
/// cross, funds are neither made nor lost: in every denomination, what the
/// batch holds more on balance is what the levels rest more and what the
/// crosses used, less what the orders had to claim and what the crosses
/// returned. With the settlement, which returns what the batch holds less
/// on balance, what came in and what was claimed, taken back and returned
/// by crosses is what goes out, what the fees get, what rests and what the
/// crosses used. It is stated for books in which every order that an
/// instruction finds has the engine state of its level.
pub proof fn lemma_run_conserves(
    managers: Seq<OrderManager>,
    books: Seq<Book>,
    crosses: Seq<Option<(Book, SwapOutcome)>>,
    orders: Seq<(Side, Price, Option<u128>)>,
    from: int,
    oracle: Option<u128>,
    denom: Seq<char>,
    n: int,
)
    requires
        carried_in_turn(managers, books, crosses, orders, from, oracle),
        0 <= from,
        0 <= n <= crosses.len(),
        managers[0].config.denoms.base@ != managers[0].config.denoms.quote@,
        forall|k: int| 0 <= k < books.len() ==> (#[trigger] books[k]).backed(),
    ensures
        managers[n].config == managers[0].config,
        managers[n].owner == managers[0].owner,
        held_by(managers[n], denom) - held_by(managers[0], denom) == run_net(
            managers,
            books,
            crosses,
            orders,
            from,
            denom,
            n,
        ),
    decreases n,
{
    if n > 0 {
        lemma_run_conserves(managers, books, crosses, orders, from, oracle, denom, n - 1);
        let k = n - 1;
        let pre = managers[k];
        let post = managers[k + 1];
        let instruction = orders[from + k];
        assert(carried(pre, books[k], post, books[k + 1], instruction, oracle, crosses[k]));
        assert(books[k].backed());
        match crosses[k] {
            None => {
                lemma_instruction_conserves(pre, books[k], post, books[k + 1], instruction, oracle);
            },
            Some((mid, outcome)) => {
                lemma_cross_conserves(
                    pre,
                    mid,
                    post,
                    books[k + 1],
                    instruction.0,
                    instruction.1,
                    instruction.2.unwrap(),
                    outcome,
                );
            },
        }
    }
}

/// A batch that is done has neither made nor lost funds: it went through a
/// run of applied instructions from what it started with to what it left,
/// and in every denomination what it holds more on balance is what the
/// levels rest more, less what the orders had to claim.
pub proof fn lemma_done_batch_conserves(
    pre: OrderManager,
    before: Book,
    post: OrderManager,
    after: Book,
    orders: Seq<(Side, Price, Option<u128>)>,
    from: int,
    oracle: Option<u128>,
)
    requires
        0 <= from,
        batch_outcome(pre, before, post, after, orders, from, oracle, Ok::<Progress, ContractError>(Progress::Done)),
        pre.config.denoms.base@ != pre.config.denoms.quote@,
        before.backed(),
    ensures
        after.backed(),
        exists|managers: Seq<OrderManager>, books: Seq<Book>|
            {
                &&& #[trigger] applied_in_turn(managers, books, orders, from, oracle)
                &&& managers[0] == pre
                &&& books[0] == before
                &&& managers.last() == post
                &&& books.last() == after
                &&& from + managers.len() - 1 == orders.len()
                &&& forall|d: Seq<char>|
                    held_by(post, d) - held_by(pre, d) == #[trigger] batch_net(
                        managers,
                        books,
                        orders,
                        from,
                        d,
                        managers.len() - 1,
                    )
            },
{
    let r = Ok::<Progress, ContractError>(Progress::Done);
    let (managers, books) = choose|managers: Seq<OrderManager>, books: Seq<Book>|
        {
            let k = from + managers.len() - 1;
            &&& #[trigger] applied_in_turn(managers, books, orders, from, oracle)
            &&& managers[0] == pre
            &&& books[0] == before
            &&& match r {
                Ok(Progress::Done) => k == orders.len() && managers.last() == post && books.last() == after,
                Ok(Progress::Cross { at, request }) => {
                    &&& at == k
                    &&& k < orders.len()
                    &&& instructed(
                        managers.last(),
                        books.last(),
                        post,
                        after,
                        orders[k],
                        oracle,
                        Ok::<Option<CrossRequest>, ContractError>(Some(request)),
                    )
                },
                Err(e) => {
                    &&& k < orders.len()
                    &&& instructed(
                        managers.last(),
                        books.last(),
                        post,
                        books.last(),
                        orders[k],
                        oracle,
                        Err::<Option<CrossRequest>, ContractError>(e),
                    )
                    &&& after.held() == before.origin()
                    &&& after.journal@.len() == 0
                },
            }
        };
    let n = managers.len() - 1;
    assert forall|d: Seq<char>|
        held_by(post, d) - held_by(pre, d) == #[trigger] batch_net(managers, books, orders, from, d, n) by {
        lemma_batch_conserves(managers, books, orders, from, oracle, d, n);
    }
    lemma_batch_conserves(managers, books, orders, from, oracle, Seq::empty(), n);
}

impl OrderManager {
    /// Whether the three balances are well formed.
    pub open spec fn wf(self) -> bool {
        self.receive.wf() && self.send.wf() && self.fees.wf()
    }

    /// Starts a batch for an owner with the funds that came with the call.
    pub fn new(config: &Config, owner: String, timestamp: u64, funds: Balance) -> (r: Self)
        requires
            funds.wf(),
        ensures
            r.wf(),
            r.owner == owner,
            r.timestamp == timestamp,
            r.receive == funds,
            r.send.coins@.len() == 0,
            r.fees.coins@.len() == 0,
            r.events@.len() == 0,
            r.messages@.len() == 0,
            r.config.tick == config.tick,
            r.config.fee_maker == config.fee_maker,
            r.config.fee_taker == config.fee_taker,
            r.config.denoms.base@ == config.denoms.base@,
            r.config.denoms.quote@ == config.denoms.quote@,
    {
        let denoms = crate::market_maker::Denoms {
            base: config.denoms.base.clone(),
            quote: config.denoms.quote.clone(),
        };
        let kept = Config {
            denoms,
            oracles: config.oracles.clone(),
            market_makers: config.market_makers.clone(),
            tick: config.tick,
            fee_maker: config.fee_maker,
            fee_taker: config.fee_taker,
            fee_address: config.fee_address.clone(),
        };
        Self {
            config: kept,
            owner,
            timestamp,
            receive: funds,
            send: Balance::empty(),
            fees: Balance::empty(),
            events: Vec::new(),
            messages: Vec::new(),
        }
    }

    /// Whether a claim of `claimed` can be booked: the maker fee on it can be
    /// formed and is not more than the claim, and the balances stay in range.
    pub open spec fn can_book_claim(self, side: Side, claimed: nat) -> bool {
        let ask = self.config.denoms.spec_ask(side);
        let fee = value_ceil_of(claimed, self.config.fee_maker as nat);
        &&& claimed <= u128::MAX
        &&& value_fits(claimed, self.config.fee_maker as nat)
        &&& fee <= claimed
        &&& self.receive.of(ask) + (claimed - fee) <= u128::MAX
        &&& self.fees.of(ask) + fee <= u128::MAX
    }

    /// Claims what an order has filled, if anything: the maker fee on the
    /// claim, rounded up, goes to the fees, and the rest to what the owner
    /// gets, both in the denomination that the side asks for, so that the
    /// two are exactly what was claimed; an event reports the claim; the
    /// order is stored with nothing left to claim and its size as it was.
    /// An order with nothing filled is left alone: nothing changes. A claim
    /// that cannot be booked changes nothing.
    pub fn maybe_withdraw(&mut self, book: &mut Book, pool: &mut Pool, order: &mut Order, side: &Side) -> (r: Result<(), ContractError>)
        requires
            old(self).wf(),
            old(pool).side == *side,
        ensures
            *final(pool) == *old(pool),
            final(self).wf(),
            final(self).config == old(self).config,
            final(self).owner == old(self).owner,
            final(self).timestamp == old(self).timestamp,
            final(self).messages == old(self).messages,
            final(self).send == old(self).send,
            final(book).origin() == old(book).origin(),
            final(order).owner == old(order).owner,
            final(order).updated_at == old(order).updated_at,
            final(order).offer == old(order).offer,
            r is Ok <==> bid_filled(old(order).bid) <= u128::MAX && (bid_filled(old(order).bid) != 0
                ==> old(self).can_book_claim(*side, bid_filled(old(order).bid))),
            r matches Err(e) ==> {
                &&& *final(self) == *old(self)
                &&& *final(book) == *old(book)
                &&& *final(order) == *old(order)
                &&& (e == ContractError::ConversionOverflow || e == ContractError::Overflow)
            },
            r is Ok && bid_filled(old(order).bid) == 0 ==> {
                &&& *final(self) == *old(self)
                &&& *final(book) == *old(book)
                &&& *final(order) == *old(order)
            },
            r is Ok && bid_filled(old(order).bid) != 0 ==> {
                let claimed = bid_filled(old(order).bid);
                let fee = maker_fee_of(claimed, old(self).config.fee_maker);
                let ask = old(self).config.denoms.spec_ask(*side);
                &&& fee <= claimed
                &&& credited(old(self).receive, final(self).receive, ask, (claimed - fee) as nat)
                &&& credited(old(self).fees, final(self).fees, ask, fee)
                &&& one_more(old(self).events@, final(self).events@)
                &&& shows_order(
                    final(self).events@.last(),
                    "rujira-fin/order.withdraw"@,
                    old(order).owner@,
                    *side,
                    old(pool).price,
                    "amount"@,
                    claimed,
                )
                &&& bid_filled(final(order).bid) == 0
                &&& bid_amount(final(order).bid) == bid_amount(old(order).bid)
                &&& bid_epoch(final(order).bid) == bid_epoch(old(order).bid)
                &&& bid_current(old(pool).engine(), final(order).bid) == bid_current(
                    old(pool).engine(),
                    old(order).bid,
                )
                &&& raw_orders(*final(book)) == orders_after_save(
                    raw_orders(*old(book)),
                    *final(order),
                    old(pool).key(),
                )
                &&& raw_markers(*final(book)) == raw_markers(*old(book))
                &&& raw_pools(*final(book)) == raw_pools(*old(book))
                &&& raw_snapshots(*final(book)) == raw_snapshots(*old(book))
            },
    {
        let claimed: u128 = match order.filled() {
            Some(claimed) => claimed,
            None => {
                return Err(ContractError::ConversionOverflow);
            },
        };
        if claimed == 0 {
            return Ok(());
        }
        let ask = self.config.denoms.ask(side);
        let fee: u128 = match value_ceil(claimed, self.config.fee_maker) {
            Some(fee) => fee,
            None => {
                return Err(ContractError::Overflow);
            },
        };
        if fee > claimed {
            return Err(ContractError::Overflow);
        }
        if self.receive.amount(&ask) > u128::MAX - (claimed - fee) {
            return Err(ContractError::Overflow);
        }
        if self.fees.amount(&ask) > u128::MAX - fee {
            return Err(ContractError::Overflow);
        }
        match pool.claim_order(book, order) {
            Ok(_) => {},
            Err(e) => {
                assert(false);
                return Err(e);
            },
        }
        let kept = self.receive.add(&ask, claimed - fee);
        assert(kept);
        let paid = self.fees.add(&ask, fee);
        assert(paid);
        let ghost before = self.events@;
        self.events.push(event_withdraw_order(pool, order, claimed));
        proof {
            assert(self.events@.drop_last() =~= before);
        }
        Ok(())
    }

    /// Brings an order that exists to its target size: claims its fill, then
    /// adds what is missing, which the order takes from the owner, or takes
    /// back what is too much, which the owner gets. The maker fee on the
    /// claim, rounded up, goes to the fees, the rest to the owner: together
    /// they are exactly what was claimed. Everything is checked before
    /// anything is written, so that an instruction that cannot be carried
    /// out changes nothing. An order that is at its target already, with
    /// nothing to claim, is left alone: no event, no movement of funds,
    /// nothing written.
    fn execute_existing_order(&mut self, book: &mut Book, pool: &mut Pool, order: &mut Order, side: &Side, target: Option<u128>) -> (r: Result<(), ContractError>)
        requires
            old(self).wf(),
            old(pool).side == *side,
            old(pool).pending().len() == 0,
            old(order).owner@ == old(self).owner@,
        ensures
            final(self).wf(),
            final(self).config == old(self).config,
            final(self).owner == old(self).owner,
            final(self).timestamp == old(self).timestamp,
            final(self).messages == old(self).messages,
            final(pool).price == old(pool).price,
            final(pool).side == old(pool).side,
            final(book).origin() == old(book).origin(),
            r is Ok <==> can_apply(
                *old(self),
                *side,
                bid_amount(old(order).bid),
                bid_filled(old(order).bid),
                target,
                old(pool).total(),
            ),
            r matches Err(e) ==> {
                &&& *final(self) == *old(self)
                &&& *final(book) == *old(book)
                &&& *final(pool) == *old(pool)
                &&& *final(order) == *old(order)
                &&& refusal(e)
            },
            r is Ok ==> {
                let held = bid_amount(old(order).bid);
                let claimed = bid_filled(old(order).bid);
                let goal = goal_of(held, target);
                &&& booked(*old(self), *final(self), *side, old(pool).price, held, claimed, target)
                &&& raw_snapshots(*final(book)) == raw_snapshots(*old(book))
                &&& bid_current(final(pool).engine(), final(order).bid) == bid_current(
                    old(pool).engine(),
                    old(order).bid,
                )
                &&& bid_epoch(final(order).bid) == bid_epoch(old(order).bid)
                &&& pool_epoch(final(pool).engine()) == pool_epoch(old(pool).engine())
                &&& pool_sum(final(pool).engine()) == pool_sum(old(pool).engine())
                &&& bid_amount(final(order).bid) == goal
                &&& bid_filled(final(order).bid) == 0
                &&& final(order).owner == old(order).owner
                &&& if goal == held {
                    &&& final(order).updated_at == old(order).updated_at
                    &&& final(order).offer == old(order).offer
                    &&& raw_markers(*final(book)) == raw_markers(*old(book))
                    &&& raw_pools(*final(book)) == raw_pools(*old(book))
                    &&& *final(pool) == *old(pool)
                } else {
                    &&& final(order).updated_at == old(self).timestamp
                    &&& final(order).offer == goal
                    &&& committed(*old(book), *final(book), *final(pool))
                    &&& final(pool).total() == old(pool).total() + added_of(held, target) - taken_of(
                        held,
                        target,
                    )
                }
                &&& if claimed == 0 && goal == held {
                    *final(book) == *old(book) && *final(order) == *old(order) && *final(self) == *old(
                        self,
                    )
                } else {
                    raw_orders(*final(book)) == orders_after_save(
                        raw_orders(*old(book)),
                        *final(order),
                        old(pool).key(),
                    )
                }
            },
    {
        let ask = self.config.denoms.ask(side);
        let bid = self.config.denoms.bid(side);
        // What is claimed, and how it is split.
        let claimed: u128 = match order.filled() {
            Some(claimed) => claimed,
            None => {
                return Err(ContractError::ConversionOverflow);
            },
        };
        let mut fee: u128 = 0;
        if claimed != 0 {
            fee = match value_ceil(claimed, self.config.fee_maker) {
                Some(fee) => fee,
                None => {
                    return Err(ContractError::Overflow);
                },
            };
            if fee > claimed {
                return Err(ContractError::Overflow);
            }
            if self.receive.amount(&ask) > u128::MAX - (claimed - fee) {
                return Err(ContractError::Overflow);
            }
            if self.fees.amount(&ask) > u128::MAX - fee {
                return Err(ContractError::Overflow);
            }
        }
        let net: u128 = claimed - fee;
        // What is added to the order or taken back from it.
        let mut added: u128 = 0;
        let mut taken: u128 = 0;
        if let Some(goal) = target {
            let held: u128 = match order.amount() {
                Some(held) => held,
                None => {
                    return Err(ContractError::ConversionOverflow);
                },
            };
            if held < goal {
                added = goal - held;
                if self.send.amount(&bid) > u128::MAX - added {
                    return Err(ContractError::Overflow);
                }
                match pool.total_amount() {
                    Some(total) => {
                        if added > u128::MAX - total {
                            return Err(ContractError::Overflow);
                        }
                    },
                    None => {
                        return Err(ContractError::Overflow);
                    },
                }
            } else if held > goal {
                taken = held - goal;
                let got: u128 = if ask == bid {
                    net
                } else {
                    0
                };
                let had: u128 = self.receive.amount(&bid);
                if got > u128::MAX - had || taken > u128::MAX - had - got {
                    return Err(ContractError::Overflow);
                }
                match pool.total_amount() {
                    Some(total) => {
                        if taken > total {
                            return Err(ContractError::BidPool(crate::engine::FillError::Overflow));
                        }
                    },
                    None => {},
                }
            }
        }
        // Everything can be carried out.
        let ghost held = bid_amount(order.bid);
        let ghost n = self.events@.len() as int;
        let ghost start = *self;
        let ghost first = *book;
        let ghost mut claimed_order = *order;
        match self.maybe_withdraw(book, pool, order, side) {
            Ok(()) => {},
            Err(e) => {
                assert(false);
                return Err(e);
            },
        }
        proof {
            claimed_order = *order;
        }
        let ghost mid = *self;
        proof {
            assert(mid.events@.take(n) =~= start.events@);
        }
        if added != 0 {
            match pool.increase_order(book, order, self.timestamp, added) {
                Ok(_) => {},
                Err(e) => {
                    assert(false);
                    return Err(e);
                },
            }
            let took = self.send.add(&bid, added);
            assert(took);
            let ghost before = self.events@;
            self.events.push(event_increase_order(pool, order, added));
            proof {
                assert(self.events@.drop_last() =~= before);
                assert(self.events@.take(n) =~= start.events@);
                if claimed != 0 {
                    assert(self.events@[n] == mid.events@.last());
                    assert(orders_after_save(
                        orders_after_save(raw_orders(first), claimed_order, pool.key()),
                        *order,
                        pool.key(),
                    ) =~= orders_after_save(raw_orders(first), *order, pool.key()));
                }
            }
        } else if taken != 0 {
            match pool.retract_order(book, order, self.timestamp, Some(taken)) {
                Ok(_) => {},
                Err(e) => {
                    assert(false);
                    return Err(e);
                },
            }
            let back = self.receive.add(&bid, taken);
            assert(back);
            let ghost before = self.events@;
            self.events.push(event_retract_order(pool, order, taken));
            proof {
                assert(self.events@.drop_last() =~= before);
                assert(self.events@.take(n) =~= start.events@);
                if claimed != 0 {
                    assert(self.events@[n] == mid.events@.last());
                    assert(orders_after_save(
                        orders_after_save(raw_orders(first), claimed_order, pool.key()),
                        *order,
                        pool.key(),
                    ) =~= orders_after_save(raw_orders(first), *order, pool.key()));
                }
            }
        }
        Ok(())
    }

    /// Applies one instruction as far as this library can: what `instructed`
    /// says. A fixed price must be aligned to the tick and the price must
    /// have a rate. Where the owner has an order at the level, it is brought
    /// up to date, claimed, and brought to the target. Where there is none
    /// and a target other than zero is given, nothing is changed and the
    /// cross to make is returned. An instruction that fails changes nothing.
    pub fn execute_order(&mut self, book: &mut Book, side: &Side, price: &Price, target: Option<u128>, oracle: Option<u128>) -> (r: Result<Option<CrossRequest>, ContractError>)
        requires
            old(self).wf(),
            order_ready(*old(book), old(self).owner@, (PoolKey { side: *side, price: *price })),
        ensures
            forall|level: PoolKey| #[trigger]
                level_ready(*old(book), old(self).owner@, level) ==> level_ready(*final(book), old(self).owner@, level),
            final(book).origin() == old(book).origin(),
            instructed(*old(self), *old(book), *final(self), *final(book), (*side, *price, target), oracle, r),
            !misaligned(old(self).config.tick, *price) && price.spec_rate(oracle) is Some && rests_at_target(
                *old(book),
                old(self).owner@,
                (PoolKey { side: *side, price: *price }),
                target,
            ) ==> {
                &&& r matches Ok(None)
                &&& *final(self) == *old(self)
                &&& *final(book) == *old(book)
            },
    {
        if let Price::Fixed(v) = price {
            if !self.config.tick.validate_price(*v) {
                return Err(ContractError::Tick { price: *v });
            }
        }
        let mut pool = Pool::load(book, price, side, oracle)?;
        let ghost key = PoolKey { side: *side, price: *price };
        let ghost loaded_pool = pool;
        proof {
            assert(crate::pool::loaded(*book, loaded_pool));
        }
        match pool.load_order(book, &self.owner) {
            Ok(mut order) => {
                let ghost synced = order;
                let ghost was = book.order_at(self.owner@, key).unwrap();
                match self.execute_existing_order(book, &mut pool, &mut order, side, target) {
                    Ok(()) => {},
                    Err(e) => {
                        proof {
                            assert(existing_with(
                                *old(self),
                                *old(book),
                                *self,
                                *book,
                                Err::<Option<CrossRequest>, ContractError>(e),
                                *side,
                                *price,
                                target,
                                was,
                                loaded_pool.engine(),
                            ));
                        }
                        return Err(e);
                    },
                }
                proof {
                    {
                        let held = bid_amount(synced.bid);
                        let claimed = bid_filled(synced.bid);
                        let goal = goal_of(held, target);
                        let total = loaded_pool.total();
                        let place = (self.owner@, key.side.spec_key_byte(), key.price.spec_key_bytes());
                        let level = slot_of(key);
                        if claimed == 0 && goal == held {
                        } else {
                            assert(raw_orders(*book).remove(place) =~= raw_orders(*old(book)).remove(place));
                        }
                        if goal != held {
                            assert(raw_markers(*book).remove(level) =~= raw_markers(*old(book)).remove(level));
                            assert(raw_pools(*book).remove(level) =~= raw_pools(*old(book)).remove(level));
                        }
                        assert(stored(
                            *old(book),
                            *book,
                            old(self).owner@,
                            key,
                            was,
                            old(self).timestamp,
                            held,
                            claimed,
                            target,
                            total,
                        ));
                        assert(existing_with(
                            *old(self),
                            *old(book),
                            *self,
                            *book,
                            Ok::<Option<CrossRequest>, ContractError>(None),
                            *side,
                            *price,
                            target,
                            was,
                            loaded_pool.engine(),
                        ));
                        assert forall|level: PoolKey| #[trigger]
                            level_ready(*old(book), old(self).owner@, level) implies level_ready(
                            *book,
                            old(self).owner@,
                            level,
                        ) by {
                            crate::pool::lemma_ready_kept(
                                *old(book),
                                *book,
                                order,
                                loaded_pool,
                                pool,
                                goal != held,
                                level,
                            );
                        }
                    }
                }
                Ok(None)
            },
            Err(ContractError::NotFound) => {
                let target: u128 = match target {
                    Some(target) => target,
                    None => {
                        return Ok(None);
                    },
                };
                if target == 0 {
                    return Ok(None);
                }
                let opposite = side.other();
                let limit: u128 = match opposite {
                    Side::Base => pool.rate(),
                    Side::Quote => match invert(pool.rate()) {
                        Some(inverse) => inverse,
                        None => {
                            return Err(ContractError::Swap);
                        },
                    },
                };
                Ok(Some(CrossRequest { side: opposite, offer: target, limit, fee: self.config.fee_taker }))
            },
            Err(e) => {
                proof {
                    let was = old(book).order_at(self.owner@, key).unwrap();
                    assert(existing_with(
                        *old(self),
                        *old(book),
                        *self,
                        *book,
                        Err::<Option<CrossRequest>, ContractError>(e),
                        *side,
                        *price,
                        target,
                        was,
                        loaded_pool.engine(),
                    ));
                }
                Err(e)
            },
        }
    }

    /// Applies the instructions of a batch from `from` on, in their order,
    /// each seeing what the earlier ones have changed: what `batch_outcome`
    /// says. Stops at the first instruction that needs a cross, with nothing
    /// of it applied, and returns the cross to make; returns `Done` once all
    /// are applied; fails where an instruction fails, as that one does.
    pub fn execute_orders(&mut self, book: &mut Book, orders: &Vec<(Side, Price, Option<u128>)>, from: usize, oracle: Option<u128>) -> (r: Result<Progress, ContractError>)
        requires
            old(self).wf(),
            from <= orders.len(),
            forall|i: int| from <= i < orders.len() ==> level_ready(
                *old(book),
                old(self).owner@,
                (PoolKey { side: (#[trigger] orders@[i]).0, price: orders@[i].1 }),
            ),
        ensures
            final(self).wf(),
            final(self).config == old(self).config,
            final(self).owner == old(self).owner,
            final(self).timestamp == old(self).timestamp,
            final(self).messages == old(self).messages,
            r is Ok ==> forall|level: PoolKey| #[trigger]
                level_ready(*old(book), old(self).owner@, level) ==> level_ready(*final(book), old(self).owner@, level),
            r is Ok ==> final(book).origin() == old(book).origin(),
            r is Err ==> final(book).held() == old(book).origin() && final(book).journal@.len() == 0,
            batch_outcome(*old(self), *old(book), *final(self), *final(book), orders@, from as int, oracle, r),
            from == orders.len() ==> (r matches Ok(Progress::Done)) && *final(self) == *old(self)
                && *final(book) == *old(book),
    {
        let mut i: usize = from;
        let ghost mut managers: Seq<OrderManager> = seq![*self];
        let ghost mut books: Seq<Book> = seq![*book];
        while i < orders.len()
            invariant
                from <= i <= orders.len(),
                self.wf(),
                self.config == old(self).config,
                self.owner == old(self).owner,
                self.timestamp == old(self).timestamp,
                self.messages == old(self).messages,
                i == from ==> *self == *old(self) && *book == *old(book),
                applied_in_turn(managers, books, orders@, from as int, oracle),
                managers.len() == i - from + 1,
                managers[0] == *old(self),
                books[0] == *old(book),
                managers.last() == *self,
                books.last() == *book,
                book.origin() == old(book).origin(),
                forall|level: PoolKey| #[trigger]
                    level_ready(*old(book), old(self).owner@, level) ==> level_ready(*book, old(self).owner@, level),
                forall|i: int| from <= i < orders.len() ==> level_ready(
                    *old(book),
                    old(self).owner@,
                    (PoolKey { side: (#[trigger] orders@[i]).0, price: orders@[i].1 }),
                ),
            decreases orders.len() - i,
        {
            let (side, price, target) = orders[i];
            let ghost before = *book;
            let ghost pre = *self;
            proof {
                assert(orders@[i as int] == (side, price, target));
                let level = PoolKey { side, price };
                assert(level_ready(*old(book), old(self).owner@, level));
                assert(level_ready(*book, self.owner@, level));
                crate::pool::lemma_ready_level_loads(*book, self.owner@, level);
            }
            match self.execute_order(book, &side, &price, target, oracle) {
                Ok(None) => {},
                Ok(Some(request)) => {
                    return Ok(Progress::Cross { at: i, request });
                },
                Err(e) => {
                    book.revert();
                    return Err(e);
                },
            }
            proof {
                let longer = managers.push(*self);
                let further = books.push(*book);
                assert forall|k: int| 0 <= k < longer.len() - 1 implies applied(
                    longer[k],
                    further[k],
                    #[trigger] longer[k + 1],
                    further[k + 1],
                    orders@[from + k],
                    oracle,
                ) by {
                    if k < managers.len() - 1 {
                        assert(longer[k] == managers[k] && longer[k + 1] == managers[k + 1]);
                        assert(further[k] == books[k] && further[k + 1] == books[k + 1]);
                    } else {
                        assert(longer[k] == pre && further[k] == before);
                    }
                }
                managers = longer;
                books = further;
            }
            i += 1;
        }
        Ok(Progress::Done)
    }

    /// What a cross adds to what the orders take: what it used of the
    /// offer, where it returned something.
    pub open spec fn cross_used(outcome: SwapOutcome) -> nat {
        if outcome.return_amount != 0 {
            outcome.consumed_offer as nat
        } else {
            0
        }
    }

    /// Whether the outcome of a cross can be booked for a new order on
    /// `side`: the running totals stay within 128 bits. Whether the owner
    /// can pay for it is decided when the batch is settled, not here.
    pub open spec fn can_book_cross(self, side: Side, outcome: SwapOutcome) -> bool {
        let ask = self.config.denoms.spec_ask(side);
        let bid = self.config.denoms.spec_bid(side);
        &&& outcome.return_amount != 0 ==> self.receive.of(ask) + outcome.return_amount <= u128::MAX
        &&& self.send.of(bid) + OrderManager::cross_used(outcome) + outcome.remaining_offer <= u128::MAX
    }

    /// Rests a new order after its cross: what the cross left of the target
    /// becomes the order at the level. Where the cross returned something,
    /// its events and commitments are taken over, the return is added to
    /// what the owner gets, and what the cross used is added to what the
    /// orders take. The order's size is added to what the orders take. The
    /// taker fee of the cross is held back from what it returned by the one
    /// who made the cross; it is not booked to the fees here. An outcome
    /// that does not account for the offer, what it used and what it left
    /// being the offer, is refused. A cross that cannot be booked fails the
    /// batch: the manager is left as it was, and every write that the
    /// book's journal holds is taken back.
    pub fn execute_new_order(&mut self, book: &mut Book, side: &Side, price: &Price, oracle: Option<u128>, offer: u128, outcome: SwapOutcome) -> (r: Result<(), ContractError>)
        requires
            old(self).wf(),
        ensures
            final(self).wf(),
            final(self).config == old(self).config,
            final(self).owner == old(self).owner,
            final(self).timestamp == old(self).timestamp,
            final(self).fees == old(self).fees,
            price.spec_rate(oracle) is None ==> r matches Err(ContractError::Oracle),
            price.spec_rate(oracle) is Some && !accounts_for(outcome, offer) ==> r matches Err(ContractError::Swap),
            price.spec_rate(oracle) is Some && accounts_for(outcome, offer) && r is Err ==> r matches Err(
                ContractError::Overflow,
            ),
            r is Err ==> *final(self) == *old(self) && final(book).held() == old(book).origin() && final(book).journal@.len() == 0,
            r is Ok ==> {
                &&& rested(*old(self), *old(book), *final(self), *final(book), *side, *price, offer, outcome)
                &&& final(book).origin() == old(book).origin()
                &&& old(book).backed() ==> final(book).backed()
                &&& forall|level: PoolKey| #[trigger]
                    level_ready(*old(book), old(self).owner@, level) ==> level_ready(
                        *final(book),
                        old(self).owner@,
                        level,
                    )
            },
            r is Ok <==> {
                &&& price.spec_rate(oracle) is Some
                &&& accounts_for(outcome, offer)
                &&& resting_at(*old(book), (PoolKey { side: *side, price: *price })) + outcome.remaining_offer
                    <= u128::MAX
                &&& old(self).can_book_cross(*side, outcome)
            },
    {
        match self.rest_order(book, side, price, oracle, offer, outcome) {
            Ok(()) => Ok(()),
            Err(e) => {
                book.revert();
                Err(e)
            },
        }
    }

    /// Books the outcome of a cross and rests what it left, or changes
    /// nothing where that cannot be done.
    fn rest_order(&mut self, book: &mut Book, side: &Side, price: &Price, oracle: Option<u128>, offer: u128, outcome: SwapOutcome) -> (r: Result<(), ContractError>)
        requires
            old(self).wf(),
        ensures
            final(self).wf(),
            final(self).config == old(self).config,
            final(self).owner == old(self).owner,
            final(self).timestamp == old(self).timestamp,
            final(self).fees == old(self).fees,
            final(book).origin() == old(book).origin(),
            old(book).backed() ==> final(book).backed(),
            forall|level: PoolKey| #[trigger]
                level_ready(*old(book), old(self).owner@, level) ==> level_ready(*final(book), old(self).owner@, level),
            price.spec_rate(oracle) is None ==> r matches Err(ContractError::Oracle),
            price.spec_rate(oracle) is Some && !accounts_for(outcome, offer) ==> r matches Err(ContractError::Swap),
            price.spec_rate(oracle) is Some && accounts_for(outcome, offer) && r is Err ==> r matches Err(
                ContractError::Overflow,
            ),
            r is Err ==> *final(self) == *old(self) && *final(book) == *old(book),
            r is Ok ==> rested(*old(self), *old(book), *final(self), *final(book), *side, *price, offer, outcome),
            r is Ok <==> {
                &&& price.spec_rate(oracle) is Some
                &&& accounts_for(outcome, offer)
                &&& resting_at(*old(book), (PoolKey { side: *side, price: *price })) + outcome.remaining_offer
                    <= u128::MAX
                &&& old(self).can_book_cross(*side, outcome)
            },
    {
        let mut pool = Pool::load(book, price, side, oracle)?;
        let ghost loaded_pool = pool;
        if outcome.remaining_offer > offer || outcome.consumed_offer != offer - outcome.remaining_offer {
            return Err(ContractError::Swap);
        }
        let bid = self.config.denoms.bid(side);
        let ask = self.config.denoms.ask(side);
        let used: u128 = if outcome.return_amount != 0 {
            outcome.consumed_offer
        } else {
            0
        };
        match pool.total_amount() {
            Some(total) => {
                if outcome.remaining_offer > u128::MAX - total {
                    return Err(ContractError::Overflow);
                }
            },
            None => {
                return Err(ContractError::Overflow);
            },
        }
        if outcome.return_amount != 0 && self.receive.amount(&ask) > u128::MAX - outcome.return_amount {
            return Err(ContractError::Overflow);
        }
        let taking: u128 = self.send.amount(&bid);
        if used > u128::MAX - taking || outcome.remaining_offer > u128::MAX - taking - used {
            return Err(ContractError::Overflow);
        }
        let order = match pool.create_order(book, self.timestamp, &self.owner, outcome.remaining_offer) {
            Ok(order) => order,
            Err(e) => {
                assert(false);
                return Err(e);
            },
        };
        proof {
            assert(crate::pool::loaded(*old(book), loaded_pool));
            assert forall|level: PoolKey| #[trigger]
                level_ready(*old(book), old(self).owner@, level) implies level_ready(
                *book,
                old(self).owner@,
                level,
            ) by {
                crate::pool::lemma_ready_kept(*old(book), *book, order, loaded_pool, pool, true, level);
            }
        }
        if outcome.return_amount != 0 {
            let mut events = outcome.events;
            let mut commitments = outcome.commitments;
            self.events.append(&mut events);
            self.messages.append(&mut commitments);
            let got = self.receive.add(&ask, outcome.return_amount);
            assert(got);
        }
        let took = self.send.add(&bid, used);
        assert(took);
        let rests = self.send.add(&bid, outcome.remaining_offer);
        assert(rests);
        let ghost before = self.events@;
        self.events.push(event_create_order(&pool, &order));
        proof {
            assert(self.events@.drop_last() =~= before);
        }
        Ok(())
    }

    /// Whether what the owner has put in and unlocked covers what the orders
    /// take, in every denomination.
    pub open spec fn covered(self) -> bool {
        forall|d: Seq<char>| #[trigger] self.send.of(d) <= self.receive.of(d)
    }

    /// What a refused settlement lists: the coins that the orders take, and
    /// what was left of what is there when the coin at `i`, the first of
    /// which there is too little, was to be taken from it.
    pub open spec fn short_at(self, required: Seq<Coin>, available: Seq<Coin>, i: int) -> bool {
        &&& 0 <= i < required.len()
        &&& self.receive.of(required[i].denom@) < required[i].amount
        &&& forall|j: int| 0 <= j < i ==> (#[trigger] required[j]).amount <= self.receive.of(required[j].denom@)
        &&& forall|d: Seq<char>| #[trigger] amount_of(available, d) + amount_of(required.take(i), d) == self.receive.of(d)
    }

    /// The error of a refused settlement: it lists what the orders take, in
    /// normal form, and what was left when the first coin of which there is
    /// too little was to be taken, with no empty coin.
    pub open spec fn short_by(self, e: ContractError) -> bool {
        &&& e matches ContractError::InsufficientFunds { required, available }
        &&& normal(required@)
        &&& forall|d: Seq<char>| #[trigger] amount_of(required@, d) == self.send.of(d)
        &&& distinct_denoms(available@)
        &&& forall|k: int| 0 <= k < available@.len() ==> (#[trigger] available@[k]).amount != 0
        &&& exists|i: int| #[trigger] self.short_at(required@, available@, i)
    }

    /// Settles a batch: what the orders take is taken out of what the owner
    /// has put in and unlocked, denomination by denomination. What is left
    /// is returned to the owner; nothing is lost and nothing is made. Where
    /// the orders take more than is there in some denomination, the whole
    /// batch is refused, and every write that the book's journal holds is
    /// taken back: the book holds what it held before the batch began. A
    /// batch that is settled stays, and the journal is emptied.
    pub fn finish(&mut self, book: &mut Book) -> (r: Result<ExecutionResult, ContractError>)
        requires
            old(self).wf(),
        ensures
            final(self).wf(),
            final(self).config == old(self).config,
            final(book).journal@.len() == 0,
            r is Ok ==> final(book).held() == old(book).held(),
            r is Err ==> final(book).held() == old(book).origin(),
            r is Ok <==> old(self).covered(),
            r matches Err(e) ==> old(self).short_by(e),
            r matches Ok(res) ==> {
                &&& res.withdraw.wf()
                &&& normal(res.withdraw.coins@)
                &&& forall|d: Seq<char>| #[trigger] res.withdraw.of(d) + old(self).send.of(d) == old(self).receive.of(d)
                &&& res.fees.wf()
                &&& normal(res.fees.coins@)
                &&& forall|d: Seq<char>| #[trigger] res.fees.of(d) == old(self).fees.of(d)
                &&& res.events == old(self).events
                &&& res.messages == old(self).messages
            },
    {
        self.send.normalize();
        self.receive.normalize();
        let ghost supplied = self.receive;
        let n: usize = self.send.coins.len();
        let mut i: usize = 0;
        proof {
            assert(self.send.coins@.take(0).len() == 0);
        }
        while i < n
            invariant
                0 <= i <= n,
                n == self.send.coins.len(),
                self.wf(),
                self.config == old(self).config,
                self.fees == old(self).fees,
                self.events == old(self).events,
                self.messages == old(self).messages,
                normal(self.send.coins@),
                forall|d: Seq<char>| #[trigger] self.send.of(d) == old(self).send.of(d),
                forall|d: Seq<char>| #[trigger] supplied.of(d) == old(self).receive.of(d),
                forall|d: Seq<char>| #[trigger] supplied.has(d) == (old(self).receive.of(d) != 0),
                forall|d: Seq<char>| #[trigger] self.receive.of(d) + amount_of(self.send.coins@.take(i as int), d) == supplied.of(d),
                forall|d: Seq<char>| !has_denom(self.send.coins@.take(i as int), d) ==> #[trigger] self.receive.has(d) == supplied.has(d),
                forall|j: int| 0 <= j < i ==> (#[trigger] self.send.coins@[j]).amount <= old(self).receive.of(self.send.coins@[j].denom@),
                forall|d: Seq<char>| #[trigger] self.receive.has(d) ==> self.receive.of(d) != 0,
                *book == *old(book),
            decreases n - i,
        {
            let denom = self.send.coins[i].denom.clone();
            let amount: u128 = self.send.coins[i].amount;
            let ghost done = self.send.coins@.take(i as int);
            let ghost next = self.send.coins@.take(i + 1);
            proof {
                lemma_amount_at(self.send.coins@, i as int);
                assert(next =~= done.push(self.send.coins@[i as int]));
                assert(!has_denom(done, denom@)) by {
                    if has_denom(done, denom@) {
                        let k = choose|k: int| 0 <= k < done.len() && (#[trigger] done[k]).denom@ == denom@;
                        assert(done[k] == self.send.coins@[k]);
                    }
                }
                lemma_amount_absent(done, denom@);
            }
            let ghost before = self.receive;
            if !self.receive.sub(&denom, amount) {
                proof {
                    assert(self.send.of(denom@) == amount);
                    assert(before.of(denom@) + amount_of(done, denom@) == supplied.of(denom@));
                    assert(before.has(denom@) == supplied.has(denom@));
                    assert(old(self).send.of(denom@) > old(self).receive.of(denom@));
                }
                let ghost asked = self.send.coins@;
                let ghost left = self.receive.coins@;
                proof {
                    assert(distinct_denoms(left));
                    assert forall|k: int| 0 <= k < left.len() implies (#[trigger] left[k]).amount != 0 by {
                        lemma_amount_at(left, k);
                        assert(has_denom(left, left[k].denom@));
                        assert(self.receive.has(left[k].denom@));
                    }
                    assert forall|d: Seq<char>| #[trigger] amount_of(asked, d) == old(self).send.of(d) by {
                        assert(self.send.of(d) == old(self).send.of(d));
                    }
                }
                let mut required: Vec<Coin> = Vec::new();
                std::mem::swap(&mut required, &mut self.send.coins);
                let mut available: Vec<Coin> = Vec::new();
                std::mem::swap(&mut available, &mut self.receive.coins);
                self.send = Balance::empty();
                self.receive = Balance::empty();
                proof {
                    assert(required@ == asked && available@ == left);
                    assert forall|d: Seq<char>| #[trigger] amount_of(available@, d) + amount_of(required@.take(i as int), d) == old(self).receive.of(d) by {
                        assert(before.of(d) + amount_of(done, d) == supplied.of(d));
                    }
                    assert(required@[i as int].amount == amount && required@[i as int].denom@ == denom@);
                    assert(normal(required@));
                    assert(distinct_denoms(available@));
                    assert forall|d: Seq<char>| #[trigger] amount_of(required@, d) == old(self).send.of(d) by {
                        assert(amount_of(asked, d) == old(self).send.of(d));
                    }
                    assert(old(self).short_at(required@, available@, i as int));
                }
                let refused = ContractError::InsufficientFunds { required, available };
                proof {
                    assert(old(self).short_by(refused));
                }
                book.revert();
                return Err(refused);
            }
            proof {
                assert(before.of(denom@) + amount_of(done, denom@) == supplied.of(denom@));
                assert(amount <= old(self).receive.of(denom@));
                assert forall|d: Seq<char>| #[trigger] self.receive.of(d) + amount_of(next, d) == supplied.of(d) by {
                    lemma_amount_push(done, self.send.coins@[i as int], d);
                    assert(before.of(d) + amount_of(done, d) == supplied.of(d));
                    if d != denom@ {
                        assert(self.receive.of(d) == before.of(d));
                        if !has_denom(done, d) {
                            lemma_amount_absent(done, d);
                        }
                    }
                }
                assert forall|d: Seq<char>| !has_denom(next, d) implies #[trigger] self.receive.has(d) == supplied.has(d) by {
                    assert(next[i as int].denom@ != d);
                    assert(!has_denom(done, d)) by {
                        if has_denom(done, d) {
                            let k = choose|k: int| 0 <= k < done.len() && (#[trigger] done[k]).denom@ == d;
                            assert(next[k].denom@ == d);
                        }
                    }
                    assert(before.has(d) == supplied.has(d));
                    assert(self.receive.has(d) == before.has(d));
                }
            }
            i += 1;
        }
        proof {
            assert(self.send.coins@.take(n as int) =~= self.send.coins@);
            assert forall|d: Seq<char>| #[trigger] self.receive.of(d) + old(self).send.of(d) == old(self).receive.of(d) by {
                assert(self.receive.of(d) + amount_of(self.send.coins@, d) == supplied.of(d));
                assert(self.send.of(d) == old(self).send.of(d));
            }
            assert forall|d: Seq<char>| #[trigger] old(self).send.of(d) <= old(self).receive.of(d) by {
                assert(self.receive.of(d) + old(self).send.of(d) == old(self).receive.of(d));
            }
        }
        self.fees.normalize();
        self.receive.normalize();
        let mut withdraw = Balance::empty();
        std::mem::swap(&mut withdraw, &mut self.receive);
        let mut fees = Balance::empty();
        std::mem::swap(&mut fees, &mut self.fees);
        let mut events: Vec<Event> = Vec::new();
        std::mem::swap(&mut events, &mut self.events);
        let mut messages: Vec<Commitment> = Vec::new();
        std::mem::swap(&mut messages, &mut self.messages);
        book.keep();
        Ok(ExecutionResult { withdraw, fees, events, messages })
    }
}

} // verus!
