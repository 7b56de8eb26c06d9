//! The exchange's calls: what each does itself, and what it leaves to the
//! swap engine.
//!
//! A swap or a batch of orders runs in two steps within one call: first the
//! arbitrage pass, then the caller's operation, which sees what the first
//! step has written. Both write through one book, whose journal keeps what
//! they overwrite; where the second step fails, what both have written is
//! taken back.
use crate::config::Config;
use crate::error::ContractError;
use crate::events::Event;
use crate::funds::coins_one;
use crate::funds::amount_of;
use crate::funds::distinct_denoms;
use crate::funds::sum_of;
use crate::funds::has_denom;
use crate::funds::lemma_normal_empty;
use crate::funds::normal;
use crate::funds::nothing_in;
use crate::funds::Balance;
use crate::funds::Coin;
use crate::market_maker::Commitment;
use crate::market_maker::MarketMakerOffer;
use crate::market_maker::Quoter;
use crate::merge::EitherOrBoth;
use crate::pool::Pool;
use crate::swap_iter::level_rate;
use crate::swap_iter::level_total;
use crate::swap_iter::rate_of_level;
use crate::swap_iter::stepped;
use crate::swap_iter::total_of_level;
use crate::swap_iter::walked;
use crate::swap_iter::Traversal;
use crate::engine::bid_epoch;
use crate::engine::synced_bid;
use crate::engine::syncs;
use crate::order::entry_key;
use crate::order::is_page;
use crate::order::is_scan;
use crate::order::page_end;
use crate::order::page_start;
use crate::order::shows;
use crate::order::Order;
use crate::pool::loaded;
use crate::pool::order_ready;
use crate::price::lemma_price_bytes_round_trip;
use crate::price::PoolKey;
use crate::store::raw_orders;
use crate::store::Book;
use crate::store::OrderEntry;
use crate::order_manager::ExecutionResult;
use crate::order_manager::OrderManager;
use crate::order_manager::SwapOutcome;
use crate::engine::bid_amount;
use crate::engine::bid_filled;
use crate::price::Price;
use crate::price::Side;
use vstd::prelude::*;

verus! {

/// Opaque data that is handed back to a caller with what it gets.
#[derive(Clone, Debug, PartialEq)]
pub struct Callback {
    pub data: Vec<u8>,
}

/// How a swap is to be made and where its return goes.
#[derive(Clone, Debug, PartialEq)]
pub enum SwapRequest {
    /// At any price.
    Yolo { to: Option<String>, callback: Option<Callback> },
    /// For no less than a minimum return.
    Min { min_return: u128, to: Option<String>, callback: Option<Callback> },
    /// At no more than a limit price.
    Limit { price: u128, to: Option<String>, callback: Option<Callback> },
}

/// A call of the exchange.
#[derive(Clone, Debug, PartialEq)]
pub enum ExecuteMsg {
    /// Swap the funds sent.
    Swap(SwapRequest),
    /// Bring the sender's orders to their targets.
    Order(Vec<(Side, Price, Option<u128>)>, Option<Callback>),
    /// Capture arbitrage, then go on with a message as it is given.
    Arb { then: Option<Vec<u8>> },
    /// The second step of a swap, for the sender named.
    DoSwap(String, SwapRequest),
    /// The second step of a batch of orders, for the owner named.
    DoOrder(String, Vec<(Side, Price, Option<u128>)>, Option<Callback>),
}

/// The second step that a first call asks for.
#[derive(Clone, Debug, PartialEq)]
pub enum Then {
    DoSwap(String, SwapRequest),
    DoOrder(String, Vec<(Side, Price, Option<u128>)>, Option<Callback>),
}

/// A message that the exchange sends.
#[derive(Clone, Debug, PartialEq)]
pub enum Message {
    /// To itself: a message as it was given, with the funds.
    Resume { msg: Vec<u8>, funds: Vec<Coin> },
    /// To a market maker: what a trade committed it to.
    Settle(Commitment),
    /// To the bank: pay out.
    Send { to: String, amount: Vec<Coin> },
    /// To a caller's contract: pay out with its callback data.
    Callback { callback: Callback, to: String, amount: Vec<Coin> },
}

/// What a call leads to: an answer at once, or work for the swap engine.
#[derive(Debug, PartialEq)]
pub enum Next {
    /// The call is done with these messages.
    Respond(Vec<Message>),
    /// Both sides of the book are to be walked for arbitrage, and then the
    /// second step is to be made in the same call, on the same book with
    /// the same journal: `settle_arb` takes the result of the pass, and
    /// `second` leads on.
    First { then: Then, funds: Vec<Coin> },
    /// Both sides of the book are to be walked for arbitrage; `settle_arb`
    /// takes the result.
    Arbitrage { then: Option<Vec<u8>>, funds: Vec<Coin> },
    /// The offer is to be swapped against the side; `settle_swap` takes the
    /// outcome.
    Swap { side: Side, offer: u128, sender: String, request: SwapRequest },
    /// The batch is to be run with the manager; `settle_orders` takes the
    /// result.
    Orders {
        manager: OrderManager,
        recipient: String,
        orders: Vec<(Side, Price, Option<u128>)>,
        callback: Option<Callback>,
    },
}

/// What a call answers: messages and events.
#[derive(Debug, PartialEq)]
pub struct Response {
    pub messages: Vec<Message>,
    pub events: Vec<Event>,
}

/// An order as a query shows it.
#[derive(Clone, Debug, PartialEq)]
pub struct OrderResponse {
    pub owner: String,
    pub side: Side,
    pub price: Price,
    pub rate: u128,
    pub updated_at: u64,
    pub offer: u128,
    pub remaining: u128,
    pub filled: u128,
}

/// One level of the book as a query shows it.
#[derive(Clone, Copy, Debug, PartialEq, Eq, Structural)]
pub struct BookItemResponse {
    pub price: u128,
    pub total: u128,
}

impl SwapRequest {
    pub open spec fn spec_to(self) -> Option<String> {
        match self {
            SwapRequest::Yolo { to, .. } => to,
            SwapRequest::Min { to, .. } => to,
            SwapRequest::Limit { to, .. } => to,
        }
    }

    pub open spec fn spec_callback(self) -> Option<Callback> {
        match self {
            SwapRequest::Yolo { callback, .. } => callback,
            SwapRequest::Min { callback, .. } => callback,
            SwapRequest::Limit { callback, .. } => callback,
        }
    }

    /// Where the return goes and the callback data, taken out of the request.
    pub fn into_parts(self) -> (r: (Option<String>, Option<Callback>))
        ensures
            r.0 == self.spec_to(),
            r.1 == self.spec_callback(),
    {
        match self {
            SwapRequest::Yolo { to, callback } => (to, callback),
            SwapRequest::Min { to, callback, .. } => (to, callback),
            SwapRequest::Limit { to, callback, .. } => (to, callback),
        }
    }
}

/// Whether a continuation comes from the exchange itself.
pub fn authorize(sender: &String, contract: &String) -> (r: Result<(), ContractError>)
    ensures
        sender@ == contract@ ==> r is Ok,
        sender@ != contract@ ==> r matches Err(ContractError::Unauthorized),
{
    if *sender == *contract {
        Ok(())
    } else {
        Err(ContractError::Unauthorized)
    }
}

/// The offer of a swap: the funds sent must be one coin of the pair, not
/// empty; it is offered to the side of the book that asks for it.
pub fn swap_offer(config: &Config, funds: &Vec<Coin>) -> (r: Result<(Side, u128), ContractError>)
    ensures
        !(funds.len() == 1 && funds[0].amount != 0) ==> r matches Err(ContractError::Payment),
        funds.len() == 1 && funds[0].amount != 0 ==> {
            if funds[0].denom@ == config.denoms.base@ {
                r == Ok::<(Side, u128), ContractError>((Side::Quote, funds[0].amount))
            } else if funds[0].denom@ == config.denoms.quote@ {
                r == Ok::<(Side, u128), ContractError>((Side::Base, funds[0].amount))
            } else {
                r matches Err(ContractError::Std)
            }
        },
{
    let coin = match coins_one(funds) {
        Some(coin) => coin,
        None => {
            return Err(ContractError::Payment);
        },
    };
    match config.denoms.ask_side(&coin.denom) {
        Some(side) => Ok((side, coin.amount)),
        None => Err(ContractError::Std),
    }
}

/// What the second step of a call leads to, with the funds of the call: a
/// swap needs one coin of the pair, not empty, and offers it to the side
/// that asks for it; the funds of a batch are added up by denomination and
/// start its manager.
pub open spec fn leads_to(config: Config, then: Then, funds: Vec<Coin>, timestamp: u64, r: Result<Next, ContractError>) -> bool {
    match then {
        Then::DoSwap(from, request) => if !(funds.len() == 1 && funds[0].amount != 0) {
            r matches Err(ContractError::Payment)
        } else if funds[0].denom@ == config.denoms.base@ {
            r == Ok::<Next, ContractError>(
                Next::Swap { side: Side::Quote, offer: funds[0].amount, sender: from, request },
            )
        } else if funds[0].denom@ == config.denoms.quote@ {
            r == Ok::<Next, ContractError>(
                Next::Swap { side: Side::Base, offer: funds[0].amount, sender: from, request },
            )
        } else {
            r matches Err(ContractError::Std)
        },
        Then::DoOrder(owner, orders, callback) => if exists|d: Seq<char>| #[trigger] sum_of(funds@, d) > u128::MAX {
            r matches Err(ContractError::Overflow)
        } else {
            &&& r matches Ok(Next::Orders { manager, recipient, orders: o, callback: c })
            &&& manager.wf()
            &&& manager.owner@ == owner@
            &&& recipient == owner
            &&& manager.timestamp == timestamp
            &&& forall|d: Seq<char>| #[trigger] manager.receive.of(d) == sum_of(funds@, d)
            &&& manager.send.coins@.len() == 0
            &&& manager.fees.coins@.len() == 0
            &&& manager.events@.len() == 0
            &&& o == orders
            &&& c == callback
        },
    }
}

/// Leads on to the second step of a call, behind its arbitrage pass: what
/// `leads_to` says.
pub fn second(config: &Config, then: Then, funds: Vec<Coin>, timestamp: u64) -> (r: Result<Next, ContractError>)
    ensures
        leads_to(*config, then, funds, timestamp, r),
{
    match then {
        Then::DoSwap(from, request) => {
            let (side, offer) = swap_offer(config, &funds)?;
            Ok(Next::Swap { side, offer, sender: from, request })
        },
        Then::DoOrder(owner, orders, callback) => {
            let funds = match Balance::sum(&funds) {
                Some(funds) => funds,
                None => {
                    return Err(ContractError::Overflow);
                },
            };
            let manager = OrderManager::new(config, owner.clone(), timestamp, funds);
            Ok(Next::Orders { manager, recipient: owner, orders, callback })
        },
    }
}

/// Takes a call as far as this library can. A swap and a batch of orders
/// are two steps of one call: the arbitrage pass first, then the step for
/// the sender, with the funds, on the book as the pass has left it. Both
/// write through one book with one journal, and whatever fails in the
/// second step takes back what both have written: `settle_arb`,
/// `settle_swap` and the order manager do so where they fail, and the one
/// who runs the swap engine does so where that fails. A second step that
/// comes as a call of its own is refused unless the exchange itself has
/// sent it.
pub fn execute(config: &Config, contract: &String, sender: String, funds: Vec<Coin>, timestamp: u64, msg: ExecuteMsg) -> (r: Result<Next, ContractError>)
    ensures
        match msg {
            ExecuteMsg::Swap(request) => r == Ok::<Next, ContractError>(
                Next::First { then: Then::DoSwap(sender, request), funds },
            ),
            ExecuteMsg::Order(orders, callback) => r == Ok::<Next, ContractError>(
                Next::First { then: Then::DoOrder(sender, orders, callback), funds },
            ),
            ExecuteMsg::Arb { then } => r == Ok::<Next, ContractError>(Next::Arbitrage { then, funds }),
            ExecuteMsg::DoSwap(from, request) => if sender@ != contract@ {
                r matches Err(ContractError::Unauthorized)
            } else {
                leads_to(*config, Then::DoSwap(from, request), funds, timestamp, r)
            },
            ExecuteMsg::DoOrder(owner, orders, callback) => if sender@ != contract@ {
                r matches Err(ContractError::Unauthorized)
            } else {
                leads_to(*config, Then::DoOrder(owner, orders, callback), funds, timestamp, r)
            },
        },
{
    match msg {
        ExecuteMsg::Swap(request) => Ok(Next::First { then: Then::DoSwap(sender, request), funds }),
        ExecuteMsg::Order(orders, callback) => Ok(
            Next::First { then: Then::DoOrder(sender, orders, callback), funds },
        ),
        ExecuteMsg::Arb { then } => Ok(Next::Arbitrage { then, funds }),
        ExecuteMsg::DoSwap(from, request) => {
            authorize(&sender, contract)?;
            second(config, Then::DoSwap(from, request), funds, timestamp)
        },
        ExecuteMsg::DoOrder(owner, orders, callback) => {
            authorize(&sender, contract)?;
            second(config, Then::DoOrder(owner, orders, callback), funds, timestamp)
        },
    }
}

/// Puts one settlement message for each commitment behind the messages.
fn push_settlements(messages: &mut Vec<Message>, commitments: Vec<Commitment>)
    ensures
        final(messages)@.len() == old(messages)@.len() + commitments@.len(),
        forall|i: int| 0 <= i < old(messages)@.len() ==> final(messages)@[i] == old(messages)@[i],
        forall|i: int| 0 <= i < commitments@.len() ==> final(messages)@[old(messages)@.len() + i]
            == Message::Settle(commitments@[i]),
{
    let mut rest = commitments;
    let ghost all = rest@;
    let ghost start = messages@;
    let n: usize = rest.len();
    let mut i: usize = 0;
    while i < n
        invariant
            0 <= i <= n,
            n == all.len(),
            rest@ =~= all.skip(i as int),
            messages@.len() == start.len() + i,
            forall|k: int| 0 <= k < start.len() ==> messages@[k] == start[k],
            forall|k: int| 0 <= k < i ==> messages@[start.len() + k] == Message::Settle(all[k]),
        decreases n - i,
    {
        let commitment = rest.remove(0);
        messages.push(Message::Settle(commitment));
        i += 1;
    }
}

/// Puts the message that pays a balance out behind the messages, unless the
/// balance is empty: to the bank, or to the receiver's contract with the
/// callback data.
fn push_payout(messages: &mut Vec<Message>, to: String, callback: Option<Callback>, amount: Balance)
    ensures
        forall|i: int| 0 <= i < old(messages)@.len() && i < final(messages)@.len() ==> final(messages)@[i] == old(messages)@[i],
        (forall|i: int| 0 <= i < amount.coins.len() ==> (#[trigger] amount.coins[i]).amount == 0)
            ==> *final(messages) == *old(messages),
        !(forall|i: int| 0 <= i < amount.coins.len() ==> (#[trigger] amount.coins[i]).amount == 0) ==> {
            &&& final(messages)@.len() == old(messages)@.len() + 1
            &&& final(messages)@.last() == (match callback {
                None => Message::Send { to, amount: amount.coins },
                Some(cb) => Message::Callback { callback: cb, to, amount: amount.coins },
            })
        },
{
    if !amount.is_empty() {
        match callback {
            None => messages.push(Message::Send { to, amount: amount.into_vec() }),
            Some(cb) => messages.push(Message::Callback { callback: cb, to, amount: amount.into_vec() }),
        }
    }
}

/// Answers the arbitrage pass: the market makers are settled, base side
/// first; the profit of both sides goes to the fee address; then the message
/// given, if any, is sent on to the exchange itself with the funds. Where
/// it fails, every write that the book's journal holds is taken back.
pub fn settle_arb(
    config: &Config,
    profit_base: u128,
    profit_quote: u128,
    commit_base: Vec<Commitment>,
    commit_quote: Vec<Commitment>,
    then: Option<Vec<u8>>,
    funds: Vec<Coin>,
    book: &mut Book,
) -> (r: Result<Response, ContractError>)
    ensures
        r is Ok ==> *final(book) == *old(book),
        r is Err ==> final(book).held() == old(book).origin() && final(book).journal@.len() == 0,
        config.denoms.base@ != config.denoms.quote@ ==> r is Ok,
        r matches Ok(res) ==> {
            let settled = (commit_base@.len() + commit_quote@.len()) as int;
            let paid: int = if profit_base != 0 || profit_quote != 0 {
                1
            } else {
                0
            };
            &&& res.events@.len() == 0
            &&& res.messages@.len() == settled + paid + (if then is Some {
                1int
            } else {
                0int
            })
            &&& forall|i: int| 0 <= i < commit_base@.len() ==> res.messages@[i] == Message::Settle(commit_base@[i])
            &&& forall|i: int| 0 <= i < commit_quote@.len() ==> res.messages@[commit_base@.len() + i]
                == Message::Settle(commit_quote@[i])
            &&& paid == 1 ==> (res.messages@[settled] matches Message::Send { to, amount } && {
                &&& to@ == config.fee_address@
                &&& normal(amount@)
                &&& config.denoms.base@ != config.denoms.quote@ ==> {
                    &&& amount_of(amount@, config.denoms.base@) == profit_base
                    &&& amount_of(amount@, config.denoms.quote@) == profit_quote
                }
            })
            &&& then matches Some(msg) ==> res.messages@.last() == (Message::Resume { msg, funds })
        },
{
    let mut messages: Vec<Message> = Vec::new();
    push_settlements(&mut messages, commit_base);
    push_settlements(&mut messages, commit_quote);
    let mut fees = Balance::empty();
    if !fees.add(&config.denoms.quote, profit_quote) {
        book.revert();
        return Err(ContractError::Overflow);
    }
    if !fees.add(&config.denoms.base, profit_base) {
        book.revert();
        return Err(ContractError::Overflow);
    }
    fees.normalize();
    proof {
        lemma_normal_empty(fees.coins@);
        if profit_base != 0 {
            assert(amount_of(fees.coins@, config.denoms.base@) != 0);
        }
        if profit_quote != 0 {
            assert(amount_of(fees.coins@, config.denoms.quote@) != 0);
        }
    }
    push_payout(&mut messages, config.fee_address.clone(), None, fees);
    if let Some(msg) = then {
        messages.push(Message::Resume { msg, funds });
    }
    Ok(Response { messages, events: Vec::new() })
}

/// Answers a swap: the market makers are settled; what the swap returned
/// and what it left of the offer go to the receiver named in the request,
/// or to the sender, by the bank or with the callback data; the fee goes to
/// the fee address. The events are those of the swap. Where it fails, every
/// write that the book's journal holds is taken back.
pub fn settle_swap(config: &Config, side: &Side, sender: String, request: SwapRequest, outcome: SwapOutcome, book: &mut Book) -> (r: Result<Response, ContractError>)
    ensures
        r is Ok ==> *final(book) == *old(book),
        r is Err ==> final(book).held() == old(book).origin() && final(book).journal@.len() == 0,
        config.denoms.base@ != config.denoms.quote@ ==> r is Ok,
        r matches Ok(res) ==> {
            let settled = outcome.commitments@.len() as int;
            let paid: int = if outcome.return_amount != 0 || outcome.remaining_offer != 0 {
                1
            } else {
                0
            };
            let fee: int = if outcome.fee_amount != 0 {
                1
            } else {
                0
            };
            let receiver = match request.spec_to() {
                Some(to) => to,
                None => sender,
            };
            &&& res.events == outcome.events
            &&& res.messages@.len() == settled + paid + fee
            &&& forall|i: int| 0 <= i < settled ==> res.messages@[i] == Message::Settle(outcome.commitments@[i])
            &&& paid == 1 ==> match request.spec_callback() {
                None => res.messages@[settled] matches Message::Send { to, amount } && to == receiver
                    && paid_out(config, *side, outcome, amount@),
                Some(cb) => res.messages@[settled] matches Message::Callback { callback, to, amount }
                    && callback == cb && to == receiver && paid_out(config, *side, outcome, amount@),
            }
            &&& fee == 1 ==> (res.messages@[settled + paid] matches Message::Send { to, amount } && {
                &&& to@ == config.fee_address@
                &&& normal(amount@)
                &&& amount_of(amount@, config.denoms.spec_bid(*side)) == outcome.fee_amount
                &&& amount@.len() == 1
            })
        },
{
    let (to, callback) = request.into_parts();
    let mut messages: Vec<Message> = Vec::new();
    push_settlements(&mut messages, outcome.commitments);
    let bid = config.denoms.bid(side);
    let ask = config.denoms.ask(side);
    let mut funds = Balance::empty();
    if !funds.add(&bid, outcome.return_amount) {
        book.revert();
        return Err(ContractError::Overflow);
    }
    if !funds.add(&ask, outcome.remaining_offer) {
        book.revert();
        return Err(ContractError::Overflow);
    }
    funds.normalize();
    let recipient = match to {
        Some(to) => to,
        None => sender,
    };
    proof {
        lemma_normal_empty(funds.coins@);
        if outcome.return_amount != 0 {
            assert(amount_of(funds.coins@, bid@) != 0);
        }
        if outcome.remaining_offer != 0 {
            assert(amount_of(funds.coins@, ask@) != 0);
        }
    }
    push_payout(&mut messages, recipient, callback, funds);
    let mut fees = Balance::empty();
    let booked = fees.add(&bid, outcome.fee_amount);
    assert(booked);
    fees.normalize();
    proof {
        lemma_normal_empty(fees.coins@);
        if outcome.fee_amount != 0 {
            assert(amount_of(fees.coins@, bid@) != 0);
        }
        lemma_single(fees.coins@, bid@);
    }
    push_payout(&mut messages, config.fee_address.clone(), None, fees);
    Ok(Response { messages, events: outcome.events })
}

/// Whether coins are what a swap pays out: in normal form, the return in the
/// denomination that the side offers, what is left of the offer in the one
/// it asks for, and nothing else.
pub open spec fn paid_out(config: &Config, side: Side, outcome: SwapOutcome, amount: Seq<Coin>) -> bool {
    let bid = config.denoms.spec_bid(side);
    let ask = config.denoms.spec_ask(side);
    &&& normal(amount)
    &&& distinct_denoms(amount)
    &&& bid != ask ==> amount_of(amount, bid) == outcome.return_amount
        && amount_of(amount, ask) == outcome.remaining_offer
    &&& forall|d: Seq<char>| d != bid && d != ask ==> #[trigger] amount_of(amount, d) == 0
}

/// A list of coins in normal form that has entries of one denomination only
/// has at most one coin.
proof fn lemma_single(coins: Seq<Coin>, a: Seq<char>)
    requires
        distinct_denoms(coins),
        forall|d: Seq<char>| d != a ==> !#[trigger] has_denom(coins, d),
    ensures
        coins.len() <= 1,
{
    if coins.len() >= 2 {
        assert(has_denom(coins, coins[0].denom@));
        assert(has_denom(coins, coins[1].denom@));
        assert(coins[0].denom@ != coins[1].denom@);
    }
}

/// The number of messages that pay coins out: one, or none where the coins
/// hold nothing.
pub open spec fn paid_count(coins: Seq<Coin>) -> int {
    if nothing_in(coins) {
        0
    } else {
        1
    }
}

/// The number of messages that pay fees out: one, or none where no fee is held.
pub open spec fn fee_count(fees: Balance) -> int {
    if forall|d: Seq<char>| #[trigger] fees.of(d) == 0 {
        0
    } else {
        1
    }
}

/// Answers a batch of orders: the market makers are settled; what the batch
/// leaves to the owner is paid out, by the bank or with the callback data;
/// the fees go to the fee address. The events are those of the batch.
pub fn settle_orders(config: &Config, recipient: String, callback: Option<Callback>, result: ExecutionResult) -> (r: Response)
    requires
        result.fees.wf(),
    ensures
        r.events == result.events,
        forall|i: int| 0 <= i < result.messages@.len() ==> r.messages@[i] == Message::Settle(result.messages@[i]),
        r.messages@.len() == result.messages@.len() + paid_count(result.withdraw.coins@) + fee_count(result.fees),
        !nothing_in(result.withdraw.coins@) ==> r.messages@[result.messages@.len() as int] == (match callback {
            None => Message::Send { to: recipient, amount: result.withdraw.coins },
            Some(cb) => Message::Callback { callback: cb, to: recipient, amount: result.withdraw.coins },
        }),
        fee_count(result.fees) == 1 ==> (r.messages@.last() matches Message::Send { to, amount } && {
            &&& to@ == config.fee_address@
            &&& normal(amount@)
            &&& forall|d: Seq<char>| #[trigger] amount_of(amount@, d) == result.fees.of(d)
        }),
{
    let mut messages: Vec<Message> = Vec::new();
    push_settlements(&mut messages, result.messages);
    push_payout(&mut messages, recipient, callback, result.withdraw);
    let mut fees = result.fees;
    fees.normalize();
    proof {
        lemma_normal_empty(fees.coins@);
        if forall|d: Seq<char>| #[trigger] result.fees.of(d) == 0 {
            assert forall|d: Seq<char>| #[trigger] amount_of(fees.coins@, d) == 0 by {
                assert(result.fees.of(d) == 0);
            }
        } else {
            let d = choose|d: Seq<char>| #[trigger] result.fees.of(d) != 0;
            assert(amount_of(fees.coins@, d) != 0);
        }
    }
    push_payout(&mut messages, config.fee_address.clone(), None, fees);
    Response { messages, events: result.events }
}

/// Shows an order: its key, the rate of its price, and what it holds.
/// Nothing where the price has no rate or an amount leaves 128 bits.
pub fn order_response(order: &Order, side: &Side, price: &Price, oracle: Option<u128>) -> (r: Option<OrderResponse>)
    ensures
        r is Some <==> price.spec_rate(oracle) is Some && bid_amount(order.bid) <= u128::MAX
            && bid_filled(order.bid) <= u128::MAX,
        r matches Some(shown) ==> {
            &&& shown.owner@ == order.owner@
            &&& shown.side == *side
            &&& shown.price == *price
            &&& Some(shown.rate) == price.spec_rate(oracle)
            &&& shown.updated_at == order.updated_at
            &&& shown.offer == order.offer
            &&& shown.remaining == bid_amount(order.bid)
            &&& shown.filled == bid_filled(order.bid)
        },
{
    let rate: u128 = match price.to_rate(oracle) {
        Some(rate) => rate,
        None => {
            return None;
        },
    };
    let remaining: u128 = match order.amount() {
        Some(v) => v,
        None => {
            return None;
        },
    };
    let filled: u128 = match order.filled() {
        Some(v) => v,
        None => {
            return None;
        },
    };
    Some(
        OrderResponse {
            owner: order.owner.clone(),
            side: *side,
            price: *price,
            rate,
            updated_at: order.updated_at,
            offer: order.offer,
            remaining,
            filled,
        },
    )
}

/// What a page of a side of the book shows of the levels pulled for it: the
/// levels before `offset` are passed over, and each one behind is shown with
/// its rate and its total.
pub open spec fn page_shown(
    items: Seq<BookItemResponse>,
    levels: Seq<EitherOrBoth<EitherOrBoth<Pool, Pool>, Vec<MarketMakerOffer>>>,
    offset: int,
) -> bool {
    &&& items.len() == (if levels.len() > offset {
        levels.len() - offset
    } else {
        0
    })
    &&& forall|i: int| 0 <= i < items.len() ==> {
        &&& (#[trigger] items[i]).price == level_rate(levels[offset + i])
        &&& items[i].total == level_total(levels[offset + i])
    }
}

/// What showing a page of a side of the book comes to, over the levels that
/// were pulled for it. At most `offset + limit` levels are pulled. The page
/// is answered where the total of each level behind `offset` fits in 128
/// bits: either the page is full and the traversal stands behind its last
/// level, or the traversal has ended. It is refused at the first level
/// behind `offset` whose total does not fit, with the traversal behind that
/// level.
pub open spec fn book_shown(
    pre: Traversal,
    post: Traversal,
    offset: int,
    limit: int,
    r: Result<Vec<BookItemResponse>, ContractError>,
    states: Seq<Traversal>,
    levels: Seq<EitherOrBoth<EitherOrBoth<Pool, Pool>, Vec<MarketMakerOffer>>>,
) -> bool {
    &&& walked(states, levels)
    &&& states[0] == pre
    &&& levels.len() <= offset + limit
    &&& match r {
        Ok(items) => {
            &&& page_shown(items@, levels, offset)
            &&& if levels.len() == offset + limit {
                states.last() == post
            } else {
                stepped(states.last(), post, None)
            }
        },
        Err(e) => {
            &&& e == ContractError::ConversionOverflow
            &&& levels.len() > offset
            &&& level_total(levels.last()) > u128::MAX
            &&& forall|i: int| offset <= i < levels.len() - 1 ==> #[trigger] level_total(levels[i]) <= u128::MAX
            &&& states.last() == post
        },
    }
}

/// Shows a page of a side of the book: pulls levels from a traversal, passes
/// over the first `offset` of them, and shows up to `limit` with their rate
/// and total. The traversal is pulled no further than the page needs; a page
/// that is not full means that the traversal has ended. Fails where a
/// level's total leaves 128 bits. A page of no level behind no offset is
/// empty and pulls nothing.
pub fn query_book(traversal: &mut Traversal, quoter: &Quoter, offset: u8, limit: u8) -> (r: Result<Vec<BookItemResponse>, ContractError>)
    requires
        old(traversal).wf(),
    ensures
        final(traversal).wf(),
        exists|states: Seq<Traversal>, levels: Seq<EitherOrBoth<EitherOrBoth<Pool, Pool>, Vec<MarketMakerOffer>>>| #[trigger]
            book_shown(*old(traversal), *final(traversal), offset as int, limit as int, r, states, levels),
        offset + limit == 0 ==> (r matches Ok(items) && items@.len() == 0) && *final(traversal) == *old(traversal),
{
    let mut items: Vec<BookItemResponse> = Vec::new();
    let ghost mut states: Seq<Traversal> = seq![*traversal];
    let ghost mut levels: Seq<EitherOrBoth<EitherOrBoth<Pool, Pool>, Vec<MarketMakerOffer>>> = Seq::empty();
    let end: u16 = offset as u16 + limit as u16;
    let mut seen: u16 = 0;
    while seen < end
        invariant
            seen <= end,
            end == offset + limit,
            traversal.wf(),
            walked(states, levels),
            states[0] == *old(traversal),
            states.last() == *traversal,
            levels.len() == seen,
            page_shown(items@, levels, offset as int),
            seen == 0 ==> *traversal == *old(traversal),
        decreases end - seen,
    {
        let ghost before = *traversal;
        let level = match traversal.next(quoter) {
            Some(level) => level,
            None => {
                proof {
                    assert(book_shown(
                        *old(traversal),
                        *traversal,
                        offset as int,
                        limit as int,
                        Ok::<Vec<BookItemResponse>, ContractError>(items),
                        states,
                        levels,
                    ));
                }
                return Ok(items);
            },
        };
        proof {
            let longer = states.push(*traversal);
            let more = levels.push(level);
            assert forall|k: int| 0 <= k < more.len() implies stepped(
                longer[k],
                #[trigger] longer[k + 1],
                Some(more[k]),
            ) by {
                if k < levels.len() {
                    assert(longer[k] == states[k] && longer[k + 1] == states[k + 1]);
                    assert(more[k] == levels[k]);
                } else {
                    assert(longer[k] == before);
                }
            }
            states = longer;
            levels = more;
        }
        if seen >= offset as u16 {
            let total: u128 = match total_of_level(&level) {
                Some(total) => total,
                None => {
                    proof {
                        assert forall|i: int| offset <= i < levels.len() - 1 implies #[trigger] level_total(
                            levels[i],
                        ) <= u128::MAX by {
                            assert(items@[i - offset].total == level_total(levels[offset + (i - offset)]));
                        }
                        assert(book_shown(
                            *old(traversal),
                            *traversal,
                            offset as int,
                            limit as int,
                            Err::<Vec<BookItemResponse>, ContractError>(ContractError::ConversionOverflow),
                            states,
                            levels,
                        ));
                    }
                    return Err(ContractError::ConversionOverflow);
                },
            };
            let ghost shown = items@;
            items.push(BookItemResponse { price: rate_of_level(&level), total });
            proof {
                assert forall|i: int| 0 <= i < items@.len() implies {
                    &&& (#[trigger] items@[i]).price == level_rate(levels[offset + i])
                    &&& items@[i].total == level_total(levels[offset + i])
                } by {
                    if i < shown.len() {
                        assert(items@[i] == shown[i]);
                    }
                }
            }
        }
        seen += 1;
    }
    proof {
        assert(book_shown(
            *old(traversal),
            *traversal,
            offset as int,
            limit as int,
            Ok::<Vec<BookItemResponse>, ContractError>(items),
            states,
            levels,
        ));
    }
    Ok(items)
}

/// Whether a response shows an order of an owner as a stored order is once
/// it is brought up to date with a pool loaded for its level.
pub open spec fn shows_synced(
    book: Book,
    owner: Seq<char>,
    key: PoolKey,
    was: (u64, u128, rujira_rs::bid_pool::Bid),
    oracle: Option<u128>,
    pool: Pool,
    shown: OrderResponse,
) -> bool {
    let bid = synced_bid(pool.engine(), was.2, book.sum_at(key, bid_epoch(was.2)));
    &&& shown.owner@ == owner
    &&& shown.side == key.side
    &&& shown.price == key.price
    &&& Some(shown.rate) == key.price.spec_rate(oracle)
    &&& shown.updated_at == was.0
    &&& shown.offer == was.1
    &&& shown.remaining == bid_amount(bid)
    &&& shown.filled == bid_filled(bid)
}

/// What the query for one order answers: the order of the owner at the
/// level, brought up to date with the pool loaded for the level. It fails
/// where the price has no rate, where no order is stored, where the engine
/// refuses to bring the order up to date, and where an amount leaves 128
/// bits.
pub open spec fn order_answered(
    book: Book,
    owner: Seq<char>,
    key: PoolKey,
    oracle: Option<u128>,
    r: Result<OrderResponse, ContractError>,
) -> bool {
    match (key.price.spec_rate(oracle), book.order_at(owner, key)) {
        (None, _) => r matches Err(ContractError::Oracle),
        (Some(_), None) => r matches Err(ContractError::NotFound),
        (Some(_), Some(was)) => exists|pool: Pool|
            {
                &&& #[trigger] loaded(book, pool)
                &&& pool.key() == key
                &&& if !syncs(pool.engine(), was.2) {
                    r matches Err(ContractError::Std)
                } else {
                    let bid = synced_bid(pool.engine(), was.2, book.sum_at(key, bid_epoch(was.2)));
                    if bid_amount(bid) <= u128::MAX && bid_filled(bid) <= u128::MAX {
                        r matches Ok(shown) && shows_synced(book, owner, key, was, oracle, pool, shown)
                    } else {
                        r matches Err(ContractError::ConversionOverflow)
                    }
                }
            },
    }
}

/// Answers the query for one order.
pub fn query_order(book: &Book, owner: &String, side: &Side, price: &Price, oracle: Option<u128>) -> (r: Result<OrderResponse, ContractError>)
    requires
        order_ready(*book, owner@, (PoolKey { side: *side, price: *price })),
    ensures
        order_answered(*book, owner@, (PoolKey { side: *side, price: *price }), oracle, r),
{
    let pool = Pool::load(book, price, side, oracle)?;
    assert(loaded(*book, pool));
    let order = match pool.load_order(book, owner) {
        Ok(order) => order,
        Err(e) => {
            assert(loaded(*book, pool));
            return Err(e);
        },
    };
    assert(loaded(*book, pool));
    match order_response(&order, side, price, oracle) {
        Some(shown) => Ok(shown),
        None => Err(ContractError::ConversionOverflow),
    }
}

/// Whether the query for the order of an owner at a level is sure to be
/// answered: the price has a rate, the order and the engine state of its
/// level are stored, the engine brings the order up to date, and what the
/// order then holds fits 128 bits.
pub open spec fn answerable(book: Book, owner: Seq<char>, key: PoolKey, oracle: Option<u128>) -> bool {
    match (key.price.spec_rate(oracle), book.order_at(owner, key), book.engine_at(key)) {
        (Some(_), Some(was), Some(engine)) => {
            let bid = synced_bid(engine, was.2, book.sum_at(key, bid_epoch(was.2)));
            &&& syncs(engine, was.2)
            &&& bid_amount(bid) <= u128::MAX
            &&& bid_filled(bid) <= u128::MAX
        },
        _ => false,
    }
}

/// Whether every key of a page of a scan spells a level.
pub open spec fn page_spelt(all: Seq<Option<OrderEntry>>, offset: Option<u8>, limit: Option<u8>) -> bool {
    forall|k: int|
        page_start(all.len() as int, offset) <= k < page_end(all.len() as int, offset, limit)
            ==> entry_key(#[trigger] all[k]) is Some
}

/// Whether every order of a page of a scan is sure to be answered.
pub open spec fn page_answerable(
    book: Book,
    owner: Seq<char>,
    all: Seq<Option<OrderEntry>>,
    offset: Option<u8>,
    limit: Option<u8>,
    oracle: Option<u128>,
) -> bool {
    forall|k: int|
        page_start(all.len() as int, offset) <= k < page_end(all.len() as int, offset, limit) ==> {
            &&& entry_key(#[trigger] all[k]) is Some
            &&& answerable(book, owner, entry_key(all[k]).unwrap(), oracle)
        }
}

/// Whether the query for the order at place `j` of a scan is answered.
pub open spec fn answered_at(book: Book, owner: Seq<char>, all: Seq<Option<OrderEntry>>, j: int, oracle: Option<u128>) -> bool {
    exists|shown: OrderResponse| #[trigger]
        order_answered(
            book,
            owner,
            entry_key(all[j]).unwrap(),
            oracle,
            Ok::<OrderResponse, ContractError>(shown),
        )
}

/// Whether the query for the order at place `i` of a scan fails with `e`,
/// after the queries for the orders of the page before it were answered.
pub open spec fn refused_at(
    book: Book,
    owner: Seq<char>,
    all: Seq<Option<OrderEntry>>,
    lo: int,
    i: int,
    oracle: Option<u128>,
    e: ContractError,
) -> bool {
    &&& entry_key(all[i]) is Some
    &&& order_answered(
        book,
        owner,
        entry_key(all[i]).unwrap(),
        oracle,
        Err::<OrderResponse, ContractError>(e),
    )
    &&& forall|j: int| lo <= j < i ==> #[trigger] answered_at(book, owner, all, j, oracle)
}

/// What the query for the orders of an owner answers, given the scan of the
/// owner's orders. Where a key of the page spells no level, the query fails.
/// Otherwise the orders of the page are queried one after the other, in the
/// scan's order: the answer holds what each query answered, and where one of
/// them fails, the query fails as that one did.
pub open spec fn orders_answered(
    book: Book,
    owner: Seq<char>,
    all: Seq<Option<OrderEntry>>,
    offset: Option<u8>,
    limit: Option<u8>,
    oracle: Option<u128>,
    r: Result<Vec<OrderResponse>, ContractError>,
) -> bool {
    let lo = page_start(all.len() as int, offset);
    let hi = page_end(all.len() as int, offset, limit);
    if page_spelt(all, offset, limit) {
        match r {
            Ok(list) => {
                &&& list.len() == hi - lo
                &&& forall|i: int|
                    0 <= i < list.len() ==> order_answered(
                        book,
                        owner,
                        entry_key(all[lo + i]).unwrap(),
                        oracle,
                        Ok::<OrderResponse, ContractError>(#[trigger] list[i]),
                    )
            },
            Err(e) => exists|i: int| lo <= i < hi && #[trigger] refused_at(book, owner, all, lo, i, oracle, e),
        }
    } else {
        r matches Err(ContractError::Std)
    }
}

/// A query that is sure to be answered does not fail.
pub proof fn lemma_answerable_is_answered(
    book: Book,
    owner: Seq<char>,
    key: PoolKey,
    oracle: Option<u128>,
    e: ContractError,
)
    requires
        answerable(book, owner, key, oracle),
    ensures
        !order_answered(book, owner, key, oracle, Err::<OrderResponse, ContractError>(e)),
{
    let r = Err::<OrderResponse, ContractError>(e);
    if order_answered(book, owner, key, oracle, r) {
        let pool = choose|pool: Pool| #[trigger] loaded(book, pool) && pool.key() == key;
        assert(pool.engine() == book.engine_at(key).unwrap());
    }
}

/// Answers the query for the orders of an owner: a page of the scan of the
/// owner's orders, each brought up to date with the pool loaded for its
/// level, in the scan's order. It fails where a key of the page spells no
/// level and where the query for one of its orders fails; it succeeds
/// wherever every order of the page is sure to be answered.
pub fn query_orders(book: &Book, owner: &String, side: Option<Side>, offset: Option<u8>, limit: Option<u8>, oracle: Option<u128>) -> (r: Result<Vec<OrderResponse>, ContractError>)
    requires
        forall|level: PoolKey| #[trigger] order_ready(*book, owner@, level),
    ensures
        exists|all: Seq<Option<OrderEntry>>|
            {
                &&& #[trigger] is_scan(*book, owner@, side, all)
                &&& orders_answered(*book, owner@, all, offset, limit, oracle, r)
                &&& page_answerable(*book, owner@, all, offset, limit, oracle) ==> r is Ok
            },
{
    let found = Order::by_owner(book, owner, side, offset, limit);
    let ghost all = choose|all: Seq<Option<OrderEntry>>| #[trigger] is_scan(*book, owner@, side, all) && is_page(
        found,
        owner@,
        all,
        offset,
        limit,
    );
    let ghost lo = page_start(all.len() as int, offset);
    let ghost hi = page_end(all.len() as int, offset, limit);
    let page = match found {
        Ok(page) => page,
        Err(e) => {
            proof {
                assert(!page_spelt(all, offset, limit));
                assert(!page_answerable(*book, owner@, all, offset, limit, oracle));
            }
            return Err(e);
        },
    };
    proof {
        assert(page_spelt(all, offset, limit));
    }
    let mut list: Vec<OrderResponse> = Vec::new();
    let mut i: usize = 0;
    while i < page.len()
        invariant
            0 <= i <= page.len(),
            list.len() == i,
            forall|level: PoolKey| #[trigger] order_ready(*book, owner@, level),
            is_scan(*book, owner@, side, all),
            is_page(Ok::<Vec<(PoolKey, Order)>, ContractError>(page), owner@, all, offset, limit),
            page_spelt(all, offset, limit),
            lo == page_start(all.len() as int, offset),
            hi == page_end(all.len() as int, offset, limit),
            page.len() == hi - lo,
            forall|k: int| 0 <= k < i ==> order_answered(
                *book,
                owner@,
                entry_key(all[lo + k]).unwrap(),
                oracle,
                Ok::<OrderResponse, ContractError>(#[trigger] list[k]),
            ),
        decreases page.len() - i,
    {
        let key = page[i].0;
        proof {
            assert(shows(page[i as int], owner@, all[lo + i]));
            assert(entry_key(all[lo + i]) == Some(key));
        }
        assert(order_ready(*book, owner@, (PoolKey { side: key.side, price: key.price })));
        let shown = match query_order(book, owner, &key.side, &key.price, oracle) {
            Ok(shown) => shown,
            Err(e) => {
                proof {
                    assert forall|j: int| lo <= j < lo + i implies #[trigger] answered_at(
                        *book,
                        owner@,
                        all,
                        j,
                        oracle,
                    ) by {
                        assert(order_answered(
                            *book,
                            owner@,
                            entry_key(all[lo + (j - lo)]).unwrap(),
                            oracle,
                            Ok::<OrderResponse, ContractError>(list[j - lo]),
                        ));
                    }
                    assert(refused_at(*book, owner@, all, lo, lo + i, oracle, e));
                    if page_answerable(*book, owner@, all, offset, limit, oracle) {
                        assert(entry_key(all[lo + i]) is Some);
                        lemma_answerable_is_answered(*book, owner@, key, oracle, e);
                    }
                }
                return Err(e);
            },
        };
        let ghost before = list@;
        list.push(shown);
        proof {
            assert forall|k: int| 0 <= k < i + 1 implies order_answered(
                *book,
                owner@,
                entry_key(all[lo + k]).unwrap(),
                oracle,
                Ok::<OrderResponse, ContractError>(#[trigger] list@[k]),
            ) by {
                if k < i {
                    assert(list@[k] == before[k]);
                }
            }
        }
        i += 1;
    }
    Ok(list)
}

} // verus!
