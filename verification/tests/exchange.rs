use cosmwasm_std::testing::{MockQuerier, MockStorage};
use cosmwasm_std::{Decimal, Record, Storage, Uint128};
use rujira_fin::config::Config;
use rujira_fin::contract::{
    execute, query_order, query_orders, second, settle_arb, settle_orders, settle_swap,
    BookItemResponse, Callback, ExecuteMsg, Message, Next, OrderResponse, SwapRequest, Then,
};
use rujira_fin::events::{Attribute, Event};
use rujira_fin::funds::{Balance, Coin};
use rujira_fin::market_maker::{Commitment, Denoms, Fill, Quoter};
use rujira_fin::merge::EitherOrBoth;
use rujira_fin::order::Order;
use rujira_fin::order_manager::{
    CrossRequest, ExecutionResult, OrderManager, Progress, SwapOutcome,
};
use rujira_fin::pool::Pool;
use rujira_fin::price::{Price, Side};
use rujira_fin::store::{Book, Undo};
use rujira_fin::swap_iter::{within_limit, SwapIter};
use rujira_fin::tick::Tick;
use rujira_fin::ContractError;
use rujira_rs::exchange::{SwapCommit, SwapError, Swappable, Swapper};
use std::str::FromStr;

fn dec(text: &str) -> u128 {
    Decimal::from_str(text).unwrap().atomics().u128()
}

fn coin(amount: u128, denom: &str) -> Coin {
    Coin::new(amount, denom)
}

// The storage behind a trait object, as a store of its own.
struct Dyn<'a>(&'a mut dyn Storage);

impl Storage for Dyn<'_> {
    fn get(&self, key: &[u8]) -> Option<Vec<u8>> {
        self.0.get(key)
    }

    fn range<'a>(
        &'a self,
        start: Option<&[u8]>,
        end: Option<&[u8]>,
        order: cosmwasm_std::Order,
    ) -> Box<dyn Iterator<Item = Record> + 'a> {
        self.0.range(start, end, order)
    }

    fn set(&mut self, key: &[u8], value: &[u8]) {
        self.0.set(key, value)
    }

    fn remove(&mut self, key: &[u8]) {
        self.0.remove(key)
    }
}

// What the writes of one call have overwritten, shared by all that write.
#[derive(Clone, Default)]
struct Journal(std::rc::Rc<std::cell::RefCell<Vec<Undo>>>);

impl std::fmt::Debug for Journal {
    fn fmt(&self, f: &mut std::fmt::Formatter<'_>) -> std::fmt::Result {
        f.debug_tuple("Journal").field(&self.0.borrow().len()).finish()
    }
}

// Opens the book over a store with the journal of the call, and keeps the
// journal as it is left.
fn with_book<T>(
    store: &mut dyn Storage,
    journal: &Journal,
    f: impl FnOnce(&mut Book) -> T,
) -> T {
    let mut store = Dyn(store);
    let mut book = Book::new(&mut store);
    book.journal = journal.0.take();
    let out = f(&mut book);
    journal.0.replace(std::mem::take(&mut book.journal));
    out
}

// A pool as the swap engine sees it.
#[derive(Clone, Debug)]
struct Leaf(Pool, Journal);

impl Swappable for Leaf {
    fn rate(&self) -> Decimal {
        Decimal::raw(self.0.rate())
    }

    fn prefix(&self) -> &str {
        "rujira-fin"
    }

    fn attributes(&self) -> Vec<cosmwasm_std::Attribute> {
        self.0
            .attributes()
            .into_iter()
            .map(|a| cosmwasm_std::Attribute::new(a.key, a.value))
            .collect()
    }

    fn total(&self) -> Uint128 {
        Uint128::new(self.0.total_amount().unwrap())
    }

    fn swap(&mut self, offer: Uint128) -> Result<(Uint128, Uint128), SwapError> {
        match self.0.swap(offer.u128()) {
            Ok((used, given)) => Ok((Uint128::new(used), Uint128::new(given))),
            Err(e) => Err(SwapError::Std(cosmwasm_std::StdError::generic_err(format!(
                "{:?}",
                e
            )))),
        }
    }

    fn commit(&self, storage: &mut dyn Storage) -> Result<SwapCommit, SwapError> {
        with_book(storage, &self.1, |book| self.0.commit(book));
        Ok(SwapCommit::default())
    }
}

type Level = itertools::EitherOrBoth<Leaf, Leaf>;

// Whether a level can still be paid for under a limit, if there is one.
fn within(side: &Side, rate: u128, limit: Option<u128>) -> bool {
    match limit {
        None => true,
        Some(limit) => within_limit(side, rate, limit),
    }
}

fn levels_with(
    store: &mut MockStorage,
    config: &Config,
    side: &Side,
    oracle: Option<u128>,
    limit: Option<u128>,
    journal: &Journal,
) -> Vec<Level> {
    let q = MockQuerier::default();
    let quoter = Quoter::new(&q);
    let book = Book::new(store);
    let mut traversal = SwapIter::new(config).iter(&book, side, oracle).unwrap();
    let mut out = vec![];
    while let Some(level) = traversal.next_within(&quoter, limit) {
        let pair = match level {
            EitherOrBoth::Left(pair) => pair,
            _ => panic!("no market makers are configured"),
        };
        let pair = match pair {
            EitherOrBoth::Left(l) => itertools::EitherOrBoth::Left(Leaf(l, journal.clone())),
            EitherOrBoth::Right(r) => itertools::EitherOrBoth::Right(Leaf(r, journal.clone())),
            EitherOrBoth::Both(l, r) => itertools::EitherOrBoth::Both(Leaf(l, journal.clone()), Leaf(r, journal.clone())),
        };
        assert!(within(side, pair.rate().atomics().u128(), limit));
        out.push(pair);
    }
    out
}

fn levels(
    store: &mut MockStorage,
    config: &Config,
    side: &Side,
    oracle: Option<u128>,
    limit: Option<u128>,
) -> Vec<Level> {
    levels_with(store, config, side, oracle, limit, &Journal::default())
}

fn event_of(e: cosmwasm_std::Event) -> Event {
    Event {
        ty: e.ty,
        attributes: e
            .attributes
            .into_iter()
            .map(|a| Attribute {
                key: a.key,
                value: a.value,
            })
            .collect(),
    }
}

// Runs the swap engine of `rujira_rs` over a side of the book and writes
// what the swap did: always, where `always` is set, and else once something
// was returned.
fn run_swap_with(
    store: &mut MockStorage,
    config: &Config,
    side: &Side,
    offer: u128,
    fee: u128,
    limit: Option<u128>,
    oracle: Option<u128>,
    always: bool,
    journal: &Journal,
) -> SwapOutcome {
    let found = levels_with(store, config, side, oracle, limit, journal);
    let mut swapper: Swapper<Level> = Swapper::new(Uint128::new(offer), None, Decimal::raw(fee));
    let res = swapper.swap(&mut found.into_iter()).unwrap();
    if always || !res.return_amount.is_zero() {
        swapper.commit(store).unwrap();
    }
    SwapOutcome {
        return_amount: res.return_amount.u128(),
        consumed_offer: offer - res.remaining_offer.u128(),
        remaining_offer: res.remaining_offer.u128(),
        fee_amount: res.fee_amount.u128(),
        events: res.events.into_iter().map(event_of).collect(),
        commitments: vec![],
    }
}

fn run_swap(
    store: &mut MockStorage,
    config: &Config,
    side: &Side,
    offer: u128,
    fee: u128,
    limit: Option<u128>,
    oracle: Option<u128>,
) -> SwapOutcome {
    run_swap_with(
        store,
        config,
        side,
        offer,
        fee,
        limit,
        oracle,
        false,
        &Journal::default(),
    )
}

fn run_cross(
    store: &mut MockStorage,
    config: &Config,
    request: &CrossRequest,
    oracle: Option<u128>,
    journal: &Journal,
) -> SwapOutcome {
    run_swap_with(
        store,
        config,
        &request.side,
        request.offer,
        request.fee,
        Some(request.limit),
        oracle,
        false,
        journal,
    )
}

// Runs a batch to its end: every cross that the manager asks for is made by
// the swap engine and handed back. One journal is kept over all the steps,
// so that a step that fails takes back what the steps before it have
// written.
fn run_orders(
    e: &mut OrderManager,
    store: &mut MockStorage,
    config: &Config,
    orders: Vec<(Side, Price, Option<u128>)>,
    oracle: Option<u128>,
) -> Result<ExecutionResult, ContractError> {
    let journal = Journal::default();
    let mut from = 0;
    loop {
        let progress = with_book(store, &journal, |book| {
            e.execute_orders(book, &orders, from, oracle)
        })?;
        match progress {
            Progress::Done => break,
            Progress::Cross { at, request } => {
                let outcome = run_cross(store, config, &request, oracle, &journal);
                with_book(store, &journal, |book| {
                    e.execute_new_order(
                        book,
                        &orders[at].0,
                        &orders[at].1,
                        oracle,
                        request.offer,
                        outcome,
                    )
                })?;
                from = at + 1;
            }
        }
    }
    with_book(store, &journal, |book| e.finish(book))
}

fn config(tick: u8) -> Config {
    Config::new(
        Denoms::new("ruji", "usdc"),
        None,
        vec![],
        Tick::new(tick),
        dec("0.002"),
        dec("0.001"),
        "".to_string(),
    )
}

fn manager(config: &Config, funds: Vec<Coin>) -> OrderManager {
    OrderManager::new(
        config,
        "addr0000".to_string(),
        1_571_797_419_879_305_533,
        Balance::new(funds).unwrap(),
    )
}

fn check_event(event: &Event, ty: &str, side: &str, price: &str, key: &str, amount: &str) {
    assert_eq!(event.ty, ty);
    assert_eq!(event.attributes[0].key, "owner");
    assert_eq!(event.attributes[0].value, "addr0000");
    assert_eq!(event.attributes[1].key, "side");
    assert_eq!(event.attributes[1].value, side);
    assert_eq!(event.attributes[2].key, "price");
    assert_eq!(event.attributes[2].value, price);
    assert_eq!(event.attributes[3].key, key);
    assert_eq!(event.attributes[3].value, amount);
}

#[test]
fn test_simple_success() {
    let mut store = MockStorage::new();
    let oracle = Some(dec("1.0"));
    let config = config(4);
    let mut e = manager(&config, vec![coin(1000, "usdc")]);

    let res = run_orders(
        &mut e,
        &mut store,
        &config,
        vec![(Side::Quote, Price::Fixed(dec("1.0")), Some(1000u128))],
        oracle,
    )
    .unwrap();

    assert_eq!(res.withdraw, Balance::empty());
    let event = res.events[0].clone();
    assert_eq!(event.ty, "rujira-fin/order.create");
    assert_eq!(event.attributes[0].key, "owner");
    assert_eq!(event.attributes[0].value, "addr0000");
    assert_eq!(event.attributes[1].key, "side");
    assert_eq!(event.attributes[1].value, "quote");
    assert_eq!(event.attributes[2].key, "price");
    assert_eq!(event.attributes[2].value, "fixed:1");
    assert_eq!(event.attributes[3].key, "offer");
    assert_eq!(event.attributes[3].value, "1000");
}

#[test]
fn test_multiple_orders() {
    let mut store = MockStorage::new();
    let oracle = Some(dec("1.0"));
    let config = config(4);
    let mut e = manager(&config, vec![coin(10000, "usdc"), coin(10000, "ruji")]);

    let res = run_orders(
        &mut e,
        &mut store,
        &config,
        vec![
            (Side::Quote, Price::Fixed(dec("1.0")), Some(1000u128)),
            (Side::Quote, Price::Oracle(0), Some(2000u128)),
            (Side::Base, Price::Oracle(100), Some(1200u128)),
            (Side::Base, Price::Fixed(dec("1.3")), Some(1300u128)),
        ],
        oracle,
    )
    .unwrap();
    let returned = Balance {
        coins: vec![coin(7500, "ruji"), coin(7000, "usdc")],
    };
    assert_eq!(res.withdraw, returned);
    check_event(
        &res.events[0],
        "rujira-fin/order.create",
        "quote",
        "fixed:1",
        "offer",
        "1000",
    );
    check_event(
        &res.events[1],
        "rujira-fin/order.create",
        "quote",
        "oracle:0",
        "offer",
        "2000",
    );
    check_event(
        &res.events[2],
        "rujira-fin/order.create",
        "base",
        "oracle:100",
        "offer",
        "1200",
    );
    check_event(
        &res.events[3],
        "rujira-fin/order.create",
        "base",
        "fixed:1.3",
        "offer",
        "1300",
    );
}

#[test]
fn test_out_of_funds() {
    let mut store = MockStorage::new();
    let oracle = Some(dec("1.0"));
    let config = config(4);
    let mut e = manager(&config, vec![]);

    let err = run_orders(
        &mut e,
        &mut store,
        &config,
        vec![(Side::Quote, Price::Fixed(dec("1.0")), Some(1000u128))],
        oracle,
    )
    .unwrap_err();
    assert_eq!(
        err,
        ContractError::InsufficientFunds {
            required: vec![coin(1000, "usdc")],
            available: vec![],
        }
    );
}

#[test]
fn test_moving_orders() {
    let mut store = MockStorage::new();
    let oracle = Some(dec("1.0"));
    let config = config(4);
    let mut e = manager(&config, vec![coin(10000, "usdc"), coin(10000, "ruji")]);

    // Same as above
    run_orders(
        &mut e,
        &mut store,
        &config,
        vec![
            (Side::Base, Price::Fixed(dec("1.3")), Some(1300u128)),
            (Side::Base, Price::Oracle(100), Some(1200u128)),
            (Side::Quote, Price::Oracle(0), Some(2000u128)),
            (Side::Quote, Price::Fixed(dec("1.0")), Some(1000u128)),
        ],
        oracle,
    )
    .unwrap();

    let mut e = manager(&config, vec![]);

    let res = run_orders(
        &mut e,
        &mut store,
        &config,
        vec![
            // Split 1200 ito 2 x 600
            (Side::Base, Price::Oracle(1000), Some(600u128)),
            (Side::Base, Price::Oracle(100), Some(600u128)),
            (Side::Quote, Price::Fixed(dec("1.0")), Some(0u128)),
            (Side::Quote, Price::Fixed(dec("0.99")), Some(1000u128)),
        ],
        oracle,
    )
    .unwrap();

    let returned = Balance::empty();
    assert_eq!(res.withdraw, returned);
    assert_eq!(res.events.len(), 4);

    check_event(
        &res.events[0],
        "rujira-fin/order.create",
        "base",
        "oracle:1000",
        "offer",
        "600",
    );
    check_event(
        &res.events[1],
        "rujira-fin/order.retract",
        "base",
        "oracle:100",
        "amount",
        "600",
    );
    check_event(
        &res.events[2],
        "rujira-fin/order.retract",
        "quote",
        "fixed:1",
        "amount",
        "1000",
    );
    check_event(
        &res.events[3],
        "rujira-fin/order.create",
        "quote",
        "fixed:0.99",
        "offer",
        "1000",
    );

    let mut e = manager(&config, vec![coin(300, "ruji")]);

    // Move 300 over and increase by 300 more with fresh funds
    let res = run_orders(
        &mut e,
        &mut store,
        &config,
        vec![
            (Side::Base, Price::Oracle(100), Some(300u128)),
            (Side::Base, Price::Oracle(1000), Some(1200u128)),
        ],
        oracle,
    )
    .unwrap();

    let returned = Balance::empty();
    assert_eq!(res.withdraw, returned);
    assert_eq!(res.events.len(), 2);

    check_event(
        &res.events[0],
        "rujira-fin/order.retract",
        "base",
        "oracle:100",
        "amount",
        "300",
    );
    check_event(
        &res.events[1],
        "rujira-fin/order.increase",
        "base",
        "oracle:1000",
        "amount",
        "600",
    );
}

#[test]
fn test_tick_validation() {
    let mut store = MockStorage::new();
    let oracle = Some(dec("1.0"));
    let config = config(2);
    let mut e = manager(&config, vec![coin(1000, "usdc")]);

    let err = run_orders(
        &mut e,
        &mut store,
        &config,
        vec![(Side::Quote, Price::Fixed(dec("1.001")), Some(1000u128))],
        oracle,
    )
    .unwrap_err();
    assert_eq!(
        err,
        ContractError::Tick {
            price: dec("1.001")
        }
    );
}

fn pair() -> Config {
    Config::new(
        Denoms::new("btc-btc", "eth-usdc"),
        None,
        vec![],
        Tick::new(6),
        0,
        0,
        "fee".to_string(),
    )
}

const EXCHANGE: &str = "exchange";

// One call of the exchange with both of its steps: the arbitrage pass
// finds nothing to do on a book that does not cross, and the second step is
// made with the swap engine.
fn call(
    store: &mut MockStorage,
    config: &Config,
    sender: &str,
    funds: Vec<Coin>,
    msg: ExecuteMsg,
) -> Result<rujira_fin::contract::Response, ContractError> {
    let contract = EXCHANGE.to_string();
    let first = execute(config, &contract, sender.to_string(), funds, 1, msg)?;
    let (then, funds) = match first {
        Next::First { then, funds } => (then, funds),
        other => panic!("unexpected step {:?}", other),
    };
    let journal = Journal::default();
    let passed = with_book(store, &journal, |book| {
        settle_arb(config, 0, 0, vec![], vec![], None, vec![], book)
    })?;
    assert_eq!(passed.messages, vec![]);
    match second(config, then, funds, 1)? {
        Next::Swap {
            side,
            offer,
            sender,
            request,
        } => {
            let outcome = run_swap_with(
                store,
                config,
                &side,
                offer,
                config.fee_taker,
                None,
                None,
                true,
                &journal,
            );
            with_book(store, &journal, |book| {
                settle_swap(config, &side, sender, request, outcome, book)
            })
        }
        Next::Orders {
            mut manager,
            recipient,
            orders,
            callback,
        } => {
            let result = run_orders(&mut manager, store, config, orders, None)?;
            Ok(settle_orders(config, recipient, callback, result))
        }
        other => panic!("unexpected step {:?}", other),
    }
}

fn funds() -> Vec<Coin> {
    vec![
        coin(500_000_000_000_000, "btc-btc"),
        coin(500_000_000_000_000, "eth-usdc"),
    ]
}

fn place_one(store: &mut MockStorage, config: &Config, owner: &str, side: Side, price: &str, size: u128) {
    call(
        store,
        config,
        owner,
        funds(),
        ExecuteMsg::Order(vec![(side, Price::Fixed(dec(price)), Some(size))], None),
    )
    .unwrap();
}

fn yolo() -> ExecuteMsg {
    ExecuteMsg::Swap(SwapRequest::Yolo {
        to: None,
        callback: None,
    })
}

fn orders_of(store: &mut MockStorage, owner: &str) -> Vec<OrderResponse> {
    let book = Book::new(store);
    query_orders(&book, &owner.to_string(), None, None, None, None).unwrap()
}

fn has_attributes(event: &Event, ty: &str, attributes: &[(&str, &str)]) -> bool {
    event.ty == ty
        && attributes
            .iter()
            .all(|(k, v)| event.attributes.iter().any(|a| a.key == *k && a.value == *v))
}

#[test]
fn test_limit_order_and_oracle_order_same_price_different_direction() {
    let mut store = MockStorage::new();
    let config = pair();

    // selling 1000 at 100100
    place_one(&mut store, &config, "owner", Side::Base, "100100", 1_000);

    // buying at 100100 with 100_000_000_000
    place_one(
        &mut store,
        &config,
        "user",
        Side::Quote,
        "100100",
        100_000_000_000,
    );

    let base = levels(&mut store, &config, &Side::Base, None, None);
    let quote = levels(&mut store, &config, &Side::Quote, None, None);

    // the base order should be fully consumed
    assert_eq!(base.len(), 0);
    assert_eq!(quote.len(), 1);
}

#[test]
fn test_only_full_distribution() {
    let mut store = MockStorage::new();
    let config = pair();
    place_one(&mut store, &config, "owner", Side::Base, "1000.00", 100);
    place_one(&mut store, &config, "user2", Side::Base, "1000.00", 1000);
    place_one(&mut store, &config, "user3", Side::Base, "1000.00", 500);

    let order = orders_of(&mut store, "owner")[0].clone();
    assert_eq!(order.remaining, 100u128);
    assert_eq!(order.filled, 0);

    let order = orders_of(&mut store, "user2")[0].clone();
    assert_eq!(order.remaining, 1000u128);
    assert_eq!(order.filled, 0);

    let order = orders_of(&mut store, "user3")[0].clone();
    assert_eq!(order.remaining, 500u128);
    assert_eq!(order.filled, 0);

    let res = call(
        &mut store,
        &config,
        "user",
        vec![coin(1_600_000, "eth-usdc")],
        yolo(),
    )
    .unwrap();

    assert!(res.events.iter().any(|e| has_attributes(
        e,
        "rujira-fin/trade",
        &[
            ("rate", "1000"),
            ("price", "fixed:1000"),
            ("offer", "1600000"),
            ("bid", "1600"),
            ("side", "base"),
        ]
    )));

    let order = orders_of(&mut store, "owner")[0].clone();
    assert_eq!(order.remaining, 0);
    assert_eq!(order.filled, 100000u128);

    let order = orders_of(&mut store, "user2")[0].clone();
    assert_eq!(order.remaining, 0);
    assert_eq!(order.filled, 1000000u128);

    let order = orders_of(&mut store, "user3")[0].clone();
    assert_eq!(order.remaining, 0);
    assert_eq!(order.filled, 500000u128);
}

#[test]
fn test_first_partial_then_full() {
    let mut store = MockStorage::new();
    let config = pair();
    place_one(&mut store, &config, "owner", Side::Base, "1000.00", 100);
    place_one(&mut store, &config, "user2", Side::Base, "1000.00", 1000);
    place_one(&mut store, &config, "user3", Side::Base, "1000.00", 500);

    // First swap with same amount as price
    let res = call(
        &mut store,
        &config,
        "user",
        vec![coin(1_000_000, "eth-usdc")],
        yolo(),
    )
    .unwrap();

    assert!(res.events.iter().any(|e| has_attributes(
        e,
        "rujira-fin/trade",
        &[
            ("rate", "1000"),
            ("price", "fixed:1000"),
            ("offer", "1000000"),
            ("bid", "1000"),
            ("side", "base"),
        ]
    )));

    let order = orders_of(&mut store, "owner")[0].clone();
    assert_eq!(order.remaining, 37u128);
    assert_eq!(order.filled, 62500u128);

    let order = orders_of(&mut store, "user2")[0].clone();
    assert_eq!(order.remaining, 375u128);
    assert_eq!(order.filled, 625000u128);

    let order = orders_of(&mut store, "user3")[0].clone();
    assert_eq!(order.remaining, 187u128);
    assert_eq!(order.filled, 312500u128);

    // Second swap with enough amount to cover all the bids
    let res = call(
        &mut store,
        &config,
        "user",
        vec![coin(1_600_000, "eth-usdc")],
        yolo(),
    )
    .unwrap();

    assert!(res.events.iter().any(|e| has_attributes(
        e,
        "rujira-fin/trade",
        &[
            ("rate", "1000"),
            ("price", "fixed:1000"),
            ("offer", "600000"),
            ("bid", "600"),
            ("side", "base"),
        ]
    )));

    let order = orders_of(&mut store, "owner")[0].clone();
    assert_eq!(order.remaining, 0);
    assert_eq!(order.filled, 100000u128);

    let order = orders_of(&mut store, "user2")[0].clone();
    assert_eq!(order.remaining, 0);
    assert_eq!(order.filled, 1000000u128);

    let order = orders_of(&mut store, "user3")[0].clone();
    assert_eq!(order.remaining, 0);
    assert_eq!(order.filled, 500000u128);
}

#[test]
fn fills_do_not_depend_on_who_claims_first() {
    for claimers in [["owner", "user2", "user3"], ["user3", "owner", "user2"]] {
        let mut store = MockStorage::new();
        let config = pair();
        place_one(&mut store, &config, "owner", Side::Base, "1000.00", 100);
        place_one(&mut store, &config, "user2", Side::Base, "1000.00", 1000);
        place_one(&mut store, &config, "user3", Side::Base, "1000.00", 500);
        call(
            &mut store,
            &config,
            "user",
            vec![coin(1_600_000, "eth-usdc")],
            yolo(),
        )
        .unwrap();
        for who in claimers {
            let size = match who {
                "owner" => 100u128,
                "user2" => 1000,
                _ => 500,
            };
            // an instruction without a target claims what is filled
            let res = call(
                &mut store,
                &config,
                who,
                vec![],
                ExecuteMsg::Order(
                    vec![(Side::Base, Price::Fixed(dec("1000")), None)],
                    None,
                ),
            )
            .unwrap();
            assert_eq!(
                res.messages,
                vec![Message::Send {
                    to: who.to_string(),
                    amount: vec![coin(size * 1000, "eth-usdc")],
                }]
            );
            // nothing is left of the order, so it is gone
            assert_eq!(orders_of(&mut store, who).len(), 0);
        }
    }
}

#[test]
fn swap_of_the_whole_order_empties_the_book() {
    // a single resting base order of size 1000 at the price 2.5
    let mut store = MockStorage::new();
    let config = pair();
    place_one(&mut store, &config, "maker", Side::Base, "2.5", 1000);
    assert_eq!(levels(&mut store, &config, &Side::Base, None, None).len(), 1);

    // a swap offering 2500 quote units, no fee
    let res = call(
        &mut store,
        &config,
        "taker",
        vec![coin(2500, "eth-usdc")],
        yolo(),
    )
    .unwrap();

    // credits 1000 base to the swapper
    assert_eq!(
        res.messages,
        vec![Message::Send {
            to: "taker".to_string(),
            amount: vec![coin(1000, "btc-btc")],
        }]
    );
    // and removes the book entry
    assert_eq!(levels(&mut store, &config, &Side::Base, None, None).len(), 0);
    let order = orders_of(&mut store, "maker")[0].clone();
    assert_eq!(order.remaining, 0);
    assert_eq!(order.filled, 2500);
}

#[test]
fn target_at_resting_size_changes_nothing() {
    let mut store = MockStorage::new();
    let config = config(4);
    let mut e = manager(&config, vec![coin(1000, "usdc")]);
    let orders = vec![(Side::Quote, Price::Fixed(dec("1.0")), Some(1000u128))];
    run_orders(&mut e, &mut store, &config, orders.clone(), None).unwrap();
    let snapshot: Vec<Record> = store.range(None, None, cosmwasm_std::Order::Ascending).collect();

    let mut e = manager(&config, vec![coin(5, "usdc")]);
    let before = e.clone();
    {
        let mut book = Book::new(&mut store);
        let progress = e.execute_orders(&mut book, &orders, 0, None).unwrap();
        assert_eq!(progress, Progress::Done);
    }
    // no event, no movement of funds
    assert_eq!(e, before);
    // nothing written
    let now: Vec<Record> = store.range(None, None, cosmwasm_std::Order::Ascending).collect();
    assert_eq!(now, snapshot);
    let res = e.finish(&mut Book::new(&mut store)).unwrap();
    assert_eq!(res.events.len(), 0);
    assert_eq!(res.withdraw.coins, vec![coin(5, "usdc")]);
    assert_eq!(res.fees, Balance::empty());
}

#[test]
fn claim_pays_the_maker_fee_and_conserves_funds() {
    let mut store = MockStorage::new();
    let config = config(4);
    let mut e = manager(&config, vec![coin(1000, "ruji")]);
    let orders = vec![(Side::Base, Price::Fixed(dec("2")), Some(1000u128))];
    run_orders(&mut e, &mut store, &config, orders, None).unwrap();

    // a taker buys 333 ruji for 666 usdc
    let outcome = run_swap(&mut store, &config, &Side::Base, 666, 0, None, None);
    assert_eq!(outcome.return_amount, 333);
    assert_eq!(outcome.remaining_offer, 0);

    // the owner shrinks the order to 100: claims 666 usdc less the fee of
    // 0.1%, rounded up, and gets 567 ruji back
    let mut e = manager(&config, vec![]);
    let res = run_orders(
        &mut e,
        &mut store,
        &config,
        vec![(Side::Base, Price::Fixed(dec("2")), Some(100u128))],
        None,
    )
    .unwrap();
    assert_eq!(
        res.withdraw.coins,
        vec![coin(567, "ruji"), coin(665, "usdc")]
    );
    assert_eq!(res.fees.coins, vec![coin(1, "usdc")]);
    assert_eq!(res.events.len(), 2);
    check_event(
        &res.events[0],
        "rujira-fin/order.withdraw",
        "base",
        "fixed:2",
        "amount",
        "666",
    );
    check_event(
        &res.events[1],
        "rujira-fin/order.retract",
        "base",
        "fixed:2",
        "amount",
        "567",
    );
    let book = Book::new(&mut store);
    let pool = Pool::load(&book, &Price::Fixed(dec("2")), &Side::Base, None).unwrap();
    assert_eq!(pool.total_amount(), Some(100));
}

#[test]
fn new_order_crosses_up_to_its_own_price() {
    let mut store = MockStorage::new();
    let config = config(4);
    // sellers at 1.0 and at 1.2
    let mut e = manager(&config, vec![coin(300, "ruji")]);
    run_orders(
        &mut e,
        &mut store,
        &config,
        vec![
            (Side::Base, Price::Fixed(dec("1")), Some(100u128)),
            (Side::Base, Price::Fixed(dec("1.2")), Some(200u128)),
        ],
        None,
    )
    .unwrap();

    // a buyer at 1.1 with 500 usdc: the cross asks for the base side, the
    // order's own rate as the limit, and the taker fee
    let mut e = OrderManager::new(
        &config,
        "buyer".to_string(),
        7,
        Balance::new(vec![coin(500, "usdc")]).unwrap(),
    );
    let orders = vec![(Side::Quote, Price::Fixed(dec("1.1")), Some(500u128))];
    {
        let mut book = Book::new(&mut store);
        let progress = e.execute_orders(&mut book, &orders, 0, None).unwrap();
        assert_eq!(
            progress,
            Progress::Cross {
                at: 0,
                request: CrossRequest {
                    side: Side::Base,
                    offer: 500,
                    limit: dec("1.1"),
                    fee: dec("0.002"),
                },
            }
        );
    }
    let res = run_orders(&mut e, &mut store, &config, orders, None).unwrap();
    // 100 usdc buy the 100 ruji at 1.0, less the taker fee of 0.2% rounded
    // up; the other 400 usdc rest at 1.1
    assert_eq!(res.withdraw.coins, vec![coin(99, "ruji")]);
    assert_eq!(res.events.len(), 2);
    assert_eq!(res.events[0].ty, "rujira-fin/trade");
    assert_eq!(res.events[1].ty, "rujira-fin/order.create");
    assert_eq!(res.events[1].attributes[3].value, "400");
    assert_eq!(levels(&mut store, &config, &Side::Base, None, None).len(), 1);
    assert_eq!(levels(&mut store, &config, &Side::Quote, None, None).len(), 1);

    // a seller below the bid would cross the quote side with the inverse of
    // its rate as the limit
    let mut e = manager(&config, vec![coin(50, "ruji")]);
    let orders = vec![(Side::Base, Price::Fixed(dec("0.8")), Some(50u128))];
    let mut book = Book::new(&mut store);
    let progress = e.execute_orders(&mut book, &orders, 0, None).unwrap();
    assert_eq!(
        progress,
        Progress::Cross {
            at: 0,
            request: CrossRequest {
                side: Side::Quote,
                offer: 50,
                limit: dec("1.25"),
                fee: dec("0.002"),
            },
        }
    );
}

#[test]
fn batch_sees_its_own_earlier_changes() {
    let mut store = MockStorage::new();
    let config = config(4);
    let mut e = manager(&config, vec![coin(1000, "usdc")]);
    let res = run_orders(
        &mut e,
        &mut store,
        &config,
        vec![
            (Side::Quote, Price::Fixed(dec("1.0")), Some(1000u128)),
            (Side::Quote, Price::Fixed(dec("1.0")), Some(400u128)),
            (Side::Quote, Price::Fixed(dec("1.0")), Some(700u128)),
        ],
        None,
    )
    .unwrap();
    assert_eq!(res.withdraw.coins, vec![coin(300, "usdc")]);
    let types: Vec<&str> = res.events.iter().map(|e| e.ty.as_str()).collect();
    assert_eq!(
        types,
        vec![
            "rujira-fin/order.create",
            "rujira-fin/order.retract",
            "rujira-fin/order.increase"
        ]
    );
}

#[test]
fn continuation_is_refused_from_outside() {
    let config = pair();
    let contract = EXCHANGE.to_string();
    let request = SwapRequest::Yolo {
        to: None,
        callback: None,
    };
    let err = execute(
        &config,
        &contract,
        "mallory".to_string(),
        vec![coin(5, "btc-btc")],
        1,
        ExecuteMsg::DoSwap("mallory".to_string(), request),
    )
    .unwrap_err();
    assert_eq!(err, ContractError::Unauthorized);
    let err = execute(
        &config,
        &contract,
        "mallory".to_string(),
        vec![],
        1,
        ExecuteMsg::DoOrder("mallory".to_string(), vec![], None),
    )
    .unwrap_err();
    assert_eq!(err, ContractError::Unauthorized);
}

#[test]
fn swap_needs_one_coin_of_the_pair() {
    let config = pair();
    let contract = EXCHANGE.to_string();
    let request = || SwapRequest::Min {
        min_return: 5,
        to: None,
        callback: None,
    };
    let go = |funds: Vec<Coin>| {
        execute(
            &config,
            &contract,
            contract.clone(),
            funds,
            1,
            ExecuteMsg::DoSwap("user".to_string(), request()),
        )
    };
    assert_eq!(go(vec![]).unwrap_err(), ContractError::Payment);
    assert_eq!(
        go(vec![coin(0, "btc-btc")]).unwrap_err(),
        ContractError::Payment
    );
    assert_eq!(
        go(vec![coin(1, "btc-btc"), coin(1, "eth-usdc")]).unwrap_err(),
        ContractError::Payment
    );
    assert_eq!(go(vec![coin(1, "doge")]).unwrap_err(), ContractError::Std);
    assert_eq!(
        go(vec![coin(9, "btc-btc")]).unwrap(),
        Next::Swap {
            side: Side::Quote,
            offer: 9,
            sender: "user".to_string(),
            request: request(),
        }
    );
    assert_eq!(
        go(vec![coin(9, "eth-usdc")]).unwrap(),
        Next::Swap {
            side: Side::Base,
            offer: 9,
            sender: "user".to_string(),
            request: request(),
        }
    );
}

#[test]
fn first_call_leads_to_both_steps() {
    let config = pair();
    let contract = EXCHANGE.to_string();
    let orders = vec![(Side::Base, Price::Oracle(3), Some(7u128))];
    let callback = Some(Callback { data: vec![9, 9] });
    let next = execute(
        &config,
        &contract,
        "user".to_string(),
        funds(),
        1,
        ExecuteMsg::Order(orders.clone(), callback.clone()),
    )
    .unwrap();
    assert_eq!(
        next,
        Next::First {
            then: Then::DoOrder("user".to_string(), orders.clone(), callback.clone()),
            funds: funds(),
        }
    );
    // the second step is what a call of the exchange to itself leads to
    assert_eq!(
        second(
            &config,
            Then::DoOrder("user".to_string(), orders.clone(), callback.clone()),
            funds(),
            1
        ),
        execute(
            &config,
            &contract,
            contract.clone(),
            funds(),
            1,
            ExecuteMsg::DoOrder("user".to_string(), orders, callback),
        )
    );
    let next = execute(
        &config,
        &contract,
        "user".to_string(),
        funds(),
        1,
        ExecuteMsg::Arb {
            then: Some(vec![1, 2]),
        },
    )
    .unwrap();
    assert_eq!(
        next,
        Next::Arbitrage {
            then: Some(vec![1, 2]),
            funds: funds(),
        }
    );
}

fn commitment(contract: &str, side: Side, offer: u128, bids: u128) -> Commitment {
    Commitment {
        contract: contract.to_string(),
        side,
        amounts: Fill { offer, bids },
    }
}

#[test]
fn arbitrage_settles_pays_the_profit_and_goes_on() {
    let config = pair();
    let res = settle_arb(
        &config,
        5,
        0,
        vec![commitment("bow", Side::Base, 1, 2)],
        vec![commitment("bow", Side::Quote, 3, 4)],
        Some(vec![7]),
        vec![coin(1, "btc-btc")],
        &mut Book::new(&mut MockStorage::new()),
    )
    .unwrap();
    assert_eq!(
        res.messages,
        vec![
            Message::Settle(commitment("bow", Side::Base, 1, 2)),
            Message::Settle(commitment("bow", Side::Quote, 3, 4)),
            Message::Send {
                to: "fee".to_string(),
                amount: vec![coin(5, "btc-btc")],
            },
            Message::Resume {
                msg: vec![7],
                funds: vec![coin(1, "btc-btc")],
            },
        ]
    );
    let res = settle_arb(
        &config,
        0,
        0,
        vec![],
        vec![],
        None,
        vec![],
        &mut Book::new(&mut MockStorage::new()),
    )
    .unwrap();
    assert_eq!(res.messages, vec![]);
    let res = settle_arb(
        &config,
        2,
        9,
        vec![],
        vec![],
        None,
        vec![],
        &mut Book::new(&mut MockStorage::new()),
    )
    .unwrap();
    assert_eq!(
        res.messages,
        vec![Message::Send {
            to: "fee".to_string(),
            amount: vec![coin(2, "btc-btc"), coin(9, "eth-usdc")],
        }]
    );
}

#[test]
fn swap_pays_the_receiver_and_the_fee() {
    let config = pair();
    let outcome = |fee: u128| SwapOutcome {
        return_amount: 90,
        consumed_offer: 40,
        remaining_offer: 10,
        fee_amount: fee,
        events: vec![Event {
            ty: "rujira-fin/trade".to_string(),
            attributes: vec![],
        }],
        commitments: vec![commitment("bow", Side::Base, 40, 90)],
    };
    let res = settle_swap(
        &config,
        &Side::Base,
        "user".to_string(),
        SwapRequest::Limit {
            price: 5,
            to: Some("friend".to_string()),
            callback: Some(Callback { data: vec![1] }),
        },
        outcome(3),
        &mut Book::new(&mut MockStorage::new()),
    )
    .unwrap();
    assert_eq!(res.events.len(), 1);
    assert_eq!(
        res.messages,
        vec![
            Message::Settle(commitment("bow", Side::Base, 40, 90)),
            Message::Callback {
                callback: Callback { data: vec![1] },
                to: "friend".to_string(),
                amount: vec![coin(90, "btc-btc"), coin(10, "eth-usdc")],
            },
            Message::Send {
                to: "fee".to_string(),
                amount: vec![coin(3, "btc-btc")],
            },
        ]
    );
    let res = settle_swap(
        &config,
        &Side::Quote,
        "user".to_string(),
        SwapRequest::Yolo {
            to: None,
            callback: None,
        },
        outcome(0),
        &mut Book::new(&mut MockStorage::new()),
    )
    .unwrap();
    assert_eq!(
        res.messages,
        vec![
            Message::Settle(commitment("bow", Side::Base, 40, 90)),
            Message::Send {
                to: "user".to_string(),
                amount: vec![coin(10, "btc-btc"), coin(90, "eth-usdc")],
            },
        ]
    );
}

#[test]
fn book_is_shown_in_pages() {
    let mut store = MockStorage::new();
    let config = pair();
    for (price, size) in [("3", 30u128), ("1", 10), ("2", 20), ("4", 40)] {
        place_one(&mut store, &config, "maker", Side::Base, price, size);
        place_one(&mut store, &config, "maker", Side::Quote, price, size);
    }
    // the two sides crossed as they were placed: show what rests
    let q = MockQuerier::default();
    let quoter = Quoter::new(&q);
    let book = Book::new(&mut store);
    let page = |side: Side, offset: u8, limit: u8| {
        let mut traversal = SwapIter::new(&config).iter(&book, &side, None).unwrap();
        rujira_fin::contract::query_book(&mut traversal, &quoter, offset, limit).unwrap()
    };
    let base = page(Side::Base, 0, 100);
    let rates: Vec<u128> = base.iter().map(|x| x.price).collect();
    let mut rising = rates.clone();
    rising.sort();
    assert_eq!(rates, rising);
    assert!(!base.is_empty());
    assert_eq!(page(Side::Base, 0, 1), base[..1].to_vec());
    assert_eq!(page(Side::Base, 1, 1), base[1..base.len().min(2)].to_vec());
    assert_eq!(page(Side::Base, 200, 50), vec![]);
    assert_eq!(page(Side::Base, 0, 0), vec![]);
    let quote = page(Side::Quote, 0, 100);
    let rates: Vec<u128> = quote.iter().map(|x| x.price).collect();
    let mut falling = rates.clone();
    falling.sort();
    falling.reverse();
    assert_eq!(rates, falling);
}

#[test]
fn book_page_shows_rate_and_total() {
    let mut store = MockStorage::new();
    let config = pair();
    place_one(&mut store, &config, "a", Side::Base, "2", 20);
    place_one(&mut store, &config, "b", Side::Base, "2", 5);
    place_one(&mut store, &config, "a", Side::Base, "3", 30);
    let q = MockQuerier::default();
    let quoter = Quoter::new(&q);
    let book = Book::new(&mut store);
    let mut traversal = SwapIter::new(&config).iter(&book, &Side::Base, None).unwrap();
    assert_eq!(
        rujira_fin::contract::query_book(&mut traversal, &quoter, 0, 10).unwrap(),
        vec![
            BookItemResponse {
                price: dec("2"),
                total: 25
            },
            BookItemResponse {
                price: dec("3"),
                total: 30
            },
        ]
    );
}

#[test]
fn one_order_is_shown_up_to_date() {
    let mut store = MockStorage::new();
    let config = pair();
    place_one(&mut store, &config, "maker", Side::Base, "2", 100);
    run_swap(&mut store, &config, &Side::Base, 50, 0, None, None);
    let book = Book::new(&mut store);
    let owner = "maker".to_string();
    let price = Price::Fixed(dec("2"));
    let shown = query_order(&book, &owner, &Side::Base, &price, None).unwrap();
    assert_eq!(
        shown,
        OrderResponse {
            owner: "maker".to_string(),
            side: Side::Base,
            price,
            rate: dec("2"),
            updated_at: 1,
            offer: 100,
            remaining: 75,
            filled: 50,
        }
    );
    assert_eq!(
        query_order(&book, &owner, &Side::Quote, &price, None).unwrap_err(),
        ContractError::NotFound
    );
    assert_eq!(
        query_order(&book, &owner, &Side::Base, &Price::Oracle(1), None).unwrap_err(),
        ContractError::Oracle
    );
    assert_eq!(
        query_orders(&book, &owner, Some(Side::Base), None, None, None).unwrap(),
        vec![shown]
    );
    assert_eq!(
        query_orders(&book, &owner, Some(Side::Quote), None, None, None).unwrap(),
        vec![]
    );
}

#[test]
fn cross_must_be_covered_by_what_came_in() {
    let mut store = MockStorage::new();
    let config = config(4);
    let outcome = || SwapOutcome {
        return_amount: 9,
        consumed_offer: 10,
        remaining_offer: 90,
        fee_amount: 1,
        events: vec![],
        commitments: vec![commitment("bow", Side::Base, 10, 9)],
    };
    let price = Price::Fixed(dec("1.1"));
    // the owner sent nothing of what the cross used: the instruction is
    // booked, and the settlement at the end refuses the whole
    let mut e = manager(&config, vec![coin(100, "ruji")]);
    let mut book = Book::new(&mut store);
    assert_eq!(
        e.execute_new_order(&mut book, &Side::Quote, &price, None, 100, outcome()),
        Ok(())
    );
    assert_eq!(e.send.amount(&"usdc".to_string()), 100);
    assert_eq!(e.receive.amount(&"ruji".to_string()), 109);
    assert_eq!(
        e.finish(&mut book),
        Err(ContractError::InsufficientFunds {
            required: vec![coin(100, "usdc")],
            available: vec![coin(109, "ruji")],
        })
    );

    // with enough sent, the return comes in, the used part goes out, and the
    // rest of the target rests
    let mut store = MockStorage::new();
    let mut book = Book::new(&mut store);
    let mut e = manager(&config, vec![coin(100, "usdc")]);
    assert_eq!(
        e.execute_new_order(&mut book, &Side::Quote, &price, None, 100, outcome()),
        Ok(())
    );
    assert_eq!(e.messages, vec![commitment("bow", Side::Base, 10, 9)]);
    assert_eq!(e.receive.amount(&"ruji".to_string()), 9);
    assert_eq!(e.receive.amount(&"usdc".to_string()), 100);
    assert_eq!(e.send.amount(&"usdc".to_string()), 100);
    let res = e.finish(&mut book).unwrap();
    assert_eq!(res.withdraw.coins, vec![coin(9, "ruji")]);
    assert_eq!(res.events.len(), 1);
    let pool = Pool::load(&book, &price, &Side::Quote, None).unwrap();
    assert_eq!(pool.total_amount(), Some(90));

    // an outcome that does not account for the offer is refused
    let mut e = manager(&config, vec![coin(100, "usdc")]);
    let untouched = e.clone();
    assert_eq!(
        e.execute_new_order(&mut book, &Side::Quote, &price, None, 101, outcome()),
        Err(ContractError::Swap)
    );
    assert_eq!(e, untouched);

    // a price without a rate
    let mut e = manager(&config, vec![coin(100, "usdc")]);
    assert_eq!(
        e.execute_new_order(&mut book, &Side::Quote, &Price::Oracle(1), None, 100, outcome()),
        Err(ContractError::Oracle)
    );
}

#[test]
fn instruction_without_order_and_target_does_nothing() {
    let mut store = MockStorage::new();
    let config = config(4);
    let mut e = manager(&config, vec![coin(5, "usdc")]);
    let before = e.clone();
    let mut book = Book::new(&mut store);
    let orders = vec![
        (Side::Quote, Price::Fixed(dec("1")), None),
        (Side::Base, Price::Fixed(dec("2")), None),
    ];
    assert_eq!(
        e.execute_orders(&mut book, &orders, 0, None),
        Ok(Progress::Done)
    );
    assert_eq!(e, before);
    assert_eq!(
        e.execute_order(&mut book, &Side::Base, &Price::Oracle(5), Some(1), None),
        Err(ContractError::Oracle)
    );
    // a sell order at a rate of zero would cross the quote side at no price
    assert_eq!(
        e.execute_order(&mut book, &Side::Base, &Price::Fixed(0), Some(1), None),
        Err(ContractError::Tick { price: 0 })
    );
}

#[test]
fn orders_are_listed_unless_one_cannot_be_shown() {
    let mut store = MockStorage::new();
    let config = config(4);
    let mut e = manager(&config, vec![coin(1000, "usdc")]);
    run_orders(
        &mut e,
        &mut store,
        &config,
        vec![
            (Side::Quote, Price::Fixed(dec("1.0")), Some(100u128)),
            (Side::Quote, Price::Oracle(5), Some(200u128)),
        ],
        Some(dec("1")),
    )
    .unwrap();
    let book = Book::new(&mut store);
    let owner = "addr0000".to_string();
    // with a reading both orders are shown, in the order of the scan
    let shown = query_orders(&book, &owner, None, None, None, Some(dec("2"))).unwrap();
    assert_eq!(shown.len(), 2);
    assert_eq!(shown[0].price, Price::Fixed(dec("1.0")));
    assert_eq!(shown[0].remaining, 100);
    assert_eq!(shown[1].price, Price::Oracle(5));
    assert_eq!(shown[1].rate, dec("2.001"));
    assert_eq!(shown[1].remaining, 200);
    // without a reading the order at the oracle price cannot be shown
    assert_eq!(
        query_orders(&book, &owner, None, None, None, None).unwrap_err(),
        ContractError::Oracle
    );
    // a page that ends before it is answered
    let shown = query_orders(&book, &owner, None, None, Some(1), None).unwrap();
    assert_eq!(shown.len(), 1);
    assert_eq!(shown[0].price, Price::Fixed(dec("1.0")));
    // an owner without orders gets an empty list, not a failure
    assert_eq!(
        query_orders(&book, &"nobody".to_string(), None, None, None, None),
        Ok(vec![])
    );
}

#[test]
fn query_book() {
    let mut store = MockStorage::new();
    let config = pair();
    let oracle = Some(dec("100000"));
    let funds = vec![coin(500_000_000, "btc-btc"), coin(500_000_000, "eth-usdc")];
    let mut e = OrderManager::new(&config, "owner".to_string(), 1, Balance::new(funds).unwrap());
    let res = run_orders(
        &mut e,
        &mut store,
        &config,
        vec![
            (Side::Base, Price::Oracle(0), Some(1000000)),
            (Side::Base, Price::Fixed(dec("100000")), Some(1000000)),
            (Side::Base, Price::Fixed(dec("93317")), Some(1000000)),
            (Side::Base, Price::Fixed(dec("93219")), Some(2100000)),
            (Side::Base, Price::Fixed(dec("91219")), Some(5100000)),
            (Side::Quote, Price::Oracle(1), Some(1000000)),
            (Side::Quote, Price::Fixed(dec("100010")), Some(1250000)),
            (Side::Quote, Price::Fixed(dec("87900")), Some(5100000)),
        ],
        oracle,
    )
    .unwrap();

    let q = MockQuerier::default();
    let quoter = Quoter::new(&q);
    let book = Book::new(&mut store);
    let mut traversal = SwapIter::new(&config).iter(&book, &Side::Base, oracle).unwrap();
    let base = rujira_fin::contract::query_book(&mut traversal, &quoter, 0, 100).unwrap();
    assert_eq!(base.len(), 4);
    let entry = base[0].clone();
    assert_eq!(entry.price, dec("91219"));
    assert_eq!(entry.total, 5099977);
    let entry = base[1].clone();
    assert_eq!(entry.price, dec("93219"));
    assert_eq!(entry.total, 2100000);
    let entry = base[2].clone();
    assert_eq!(entry.price, dec("93317"));
    assert_eq!(entry.total, 1000000);
    let entry = base[3].clone();
    assert_eq!(entry.price, dec("100000"));
    assert_eq!(entry.total, 2000000);

    let mut traversal = SwapIter::new(&config).iter(&book, &Side::Quote, oracle).unwrap();
    let quote = rujira_fin::contract::query_book(&mut traversal, &quoter, 0, 100).unwrap();
    assert_eq!(quote.len(), 1);
    let entry = quote[0].clone();
    assert_eq!(entry.price, dec("87900"));
    assert_eq!(entry.total, 5100000);

    // 10200000 put up on the base side, less what its own orders on the
    // other side bought back; 7350000 put up on the quote side
    assert_eq!(
        res.withdraw.coins,
        vec![
            coin(500_000_000 - 10199977, "btc-btc"),
            coin(500_000_000 - 7350000, "eth-usdc")
        ]
    );
}

#[test]
fn target_of_nothing_without_an_order_changes_nothing() {
    let mut store = MockStorage::new();
    let config = config(4);
    let mut e = manager(&config, vec![coin(5, "usdc")]);
    let before = e.clone();
    let kept: Vec<Record> = store.range(None, None, cosmwasm_std::Order::Ascending).collect();
    {
        let mut book = Book::new(&mut store);
        assert_eq!(
            e.execute_order(&mut book, &Side::Quote, &Price::Fixed(dec("1")), Some(0), None),
            Ok(None)
        );
        let orders = vec![
            (Side::Quote, Price::Fixed(dec("1")), Some(0)),
            (Side::Base, Price::Fixed(dec("2")), Some(0)),
        ];
        assert_eq!(
            e.execute_orders(&mut book, &orders, 0, None),
            Ok(Progress::Done)
        );
    }
    assert_eq!(e, before);
    assert!(e.events.is_empty());
    let now: Vec<Record> = store.range(None, None, cosmwasm_std::Order::Ascending).collect();
    assert_eq!(now, kept);
    let res = e.finish(&mut Book::new(&mut store)).unwrap();
    assert_eq!(res.withdraw.coins, vec![coin(5, "usdc")]);
    assert!(res.events.is_empty());
}

#[test]
fn refused_settlement_lists_what_is_short() {
    let config = config(4);
    let mut store = MockStorage::new();
    let mut e = manager(&config, vec![coin(7, "ruji"), coin(5, "usdc")]);
    assert!(e.send.add(&"ruji".to_string(), 3));
    assert!(e.send.add(&"usdc".to_string(), 6));
    // ruji is taken first and is covered; usdc is short
    assert_eq!(
        e.finish(&mut Book::new(&mut store)),
        Err(ContractError::InsufficientFunds {
            required: vec![coin(3, "ruji"), coin(6, "usdc")],
            available: vec![coin(4, "ruji"), coin(5, "usdc")],
        })
    );
    // a coin that is used up is not listed as available
    let mut e = manager(&config, vec![coin(3, "ruji"), coin(5, "usdc")]);
    assert!(e.send.add(&"ruji".to_string(), 3));
    assert!(e.send.add(&"usdc".to_string(), 6));
    assert_eq!(
        e.finish(&mut Book::new(&mut store)),
        Err(ContractError::InsufficientFunds {
            required: vec![coin(3, "ruji"), coin(6, "usdc")],
            available: vec![coin(5, "usdc")],
        })
    );
}

fn records(store: &MockStorage) -> Vec<Record> {
    store.range(None, None, cosmwasm_std::Order::Ascending).collect()
}

#[test]
fn failed_batch_leaves_the_store_as_it_was() {
    let mut store = MockStorage::new();
    let config = config(2);
    // a resting sell order of another owner, to be crossed
    let mut maker = OrderManager::new(
        &config,
        "maker".to_string(),
        1,
        Balance::new(vec![coin(1000, "ruji")]).unwrap(),
    );
    run_orders(
        &mut maker,
        &mut store,
        &config,
        vec![(Side::Base, Price::Fixed(dec("1")), Some(50))],
        None,
    )
    .unwrap();
    let before = records(&store);

    // the first instruction rests an order, the second is not aligned
    let mut e = manager(&config, vec![coin(1000, "usdc")]);
    let res = run_orders(
        &mut e,
        &mut store,
        &config,
        vec![
            (Side::Quote, Price::Fixed(dec("0.5")), Some(100)),
            (Side::Quote, Price::Fixed(dec("1.001")), Some(100)),
        ],
        None,
    );
    assert_eq!(res, Err(ContractError::Tick { price: dec("1.001") }));
    assert_eq!(records(&store), before);

    // the first instruction crosses the sell order and rests what is left,
    // the second is not aligned: the fill is taken back too
    let mut e = manager(&config, vec![coin(1000, "usdc")]);
    let res = run_orders(
        &mut e,
        &mut store,
        &config,
        vec![
            (Side::Quote, Price::Fixed(dec("1")), Some(80)),
            (Side::Quote, Price::Fixed(dec("1.001")), Some(100)),
        ],
        None,
    );
    assert_eq!(res, Err(ContractError::Tick { price: dec("1.001") }));
    assert_eq!(records(&store), before);

    // every instruction is applied, and the settlement refuses the batch
    let mut e = manager(&config, vec![coin(10, "usdc")]);
    let res = run_orders(
        &mut e,
        &mut store,
        &config,
        vec![(Side::Quote, Price::Fixed(dec("1")), Some(80))],
        None,
    );
    assert!(matches!(res, Err(ContractError::InsufficientFunds { .. })));
    assert_eq!(records(&store), before);

    // a batch that is settled stays
    let mut e = manager(&config, vec![coin(1000, "usdc")]);
    run_orders(
        &mut e,
        &mut store,
        &config,
        vec![(Side::Quote, Price::Fixed(dec("1")), Some(80))],
        None,
    )
    .unwrap();
    assert_ne!(records(&store), before);
    let book = Book::new(&mut store);
    let left = Pool::load(&book, &Price::Fixed(dec("1")), &Side::Quote, None).unwrap();
    assert_eq!(left.total_amount(), Some(30));
}

#[test]
fn revert_puts_back_what_was_overwritten() {
    let mut store = MockStorage::new();
    let owner = "owner".to_string();
    let price = Price::Fixed(dec("2"));
    {
        let mut book = Book::new(&mut store);
        let mut pool = Pool::load(&book, &price, &Side::Base, None).unwrap();
        pool.create_order(&mut book, 1, &owner, 100).unwrap();
    }
    let before = records(&store);
    let mut book = Book::new(&mut store);
    assert!(book.journal.is_empty());
    let mut pool = Pool::load(&book, &price, &Side::Base, None).unwrap();
    let mut order = pool.load_order(&book, &owner).unwrap();
    pool.retract_order(&mut book, &mut order, 2, None).unwrap();
    let other = Price::Fixed(dec("3"));
    let mut fresh = Pool::load(&book, &other, &Side::Base, None).unwrap();
    fresh.create_order(&mut book, 2, &owner, 7).unwrap();
    pool.swap(0).unwrap();
    assert!(!book.journal.is_empty());
    assert!(!book.lists(&rujira_fin::price::PoolKey::new(Side::Base, price)));
    book.revert();
    assert!(book.journal.is_empty());
    assert!(book.lists(&rujira_fin::price::PoolKey::new(Side::Base, price)));
    assert_eq!(records(&store), before);
}

#[test]
fn unreadable_marker_is_no_level() {
    let mut store = MockStorage::new();
    let config = config(4);
    let mut e = manager(&config, vec![coin(1000, "ruji")]);
    run_orders(
        &mut e,
        &mut store,
        &config,
        vec![
            (Side::Base, Price::Fixed(dec("1")), Some(10)),
            (Side::Base, Price::Fixed(dec("2")), Some(20)),
        ],
        None,
    )
    .unwrap();
    // spoil the marker of the lower level
    let space = [0u8, 5, b'p', b'o', b'o', b'l', b's'];
    let stored: Vec<Record> = records(&store)
        .into_iter()
        .filter(|(k, _)| k.starts_with(&space))
        .collect();
    assert_eq!(stored.len(), 2);
    store.set(&stored[0].0, b"spoilt");
    let book = Book::new(&mut store);
    // it is neither listed nor in the traversal
    assert!(!book.lists(&rujira_fin::price::PoolKey::new(
        Side::Base,
        Price::Fixed(dec("1"))
    )));
    assert!(book.lists(&rujira_fin::price::PoolKey::new(
        Side::Base,
        Price::Fixed(dec("2"))
    )));
    let pairs = Pool::iter(&book, &Side::Base, None).unwrap();
    assert_eq!(pairs.len(), 1);
}

#[test]
fn key_that_is_not_framed_fails_the_page_that_holds_it() {
    let mut store = MockStorage::new();
    let config = config(4);
    let mut e = manager(&config, vec![coin(1000, "usdc")]);
    run_orders(
        &mut e,
        &mut store,
        &config,
        vec![
            (Side::Quote, Price::Fixed(dec("1")), Some(100u128)),
            (Side::Quote, Price::Fixed(dec("2")), Some(200u128)),
        ],
        None,
    )
    .unwrap();
    let space = [0u8, 6, b'o', b'r', b'd', b'e', b'r', b's'];
    let stored: Vec<Record> = records(&store)
        .into_iter()
        .filter(|(k, _)| k.starts_with(&space))
        .collect();
    assert_eq!(stored.len(), 2);
    // what is stored for an order, under a key that ends behind the owner
    // with one byte: it sorts behind the two orders
    let owner = "addr0000";
    let mut key = space.to_vec();
    key.extend_from_slice(&[0, owner.len() as u8]);
    key.extend_from_slice(owner.as_bytes());
    key.push(9);
    store.set(&key, &stored[0].1);

    let book = Book::new(&mut store);
    let owner = owner.to_string();
    assert_eq!(
        Order::by_owner(&book, &owner, None, None, None).unwrap_err(),
        ContractError::Std
    );
    let page = Order::by_owner(&book, &owner, None, None, Some(2)).unwrap();
    assert_eq!(page.len(), 2);
    assert_eq!(page[0].0.price, Price::Fixed(dec("1")));
    assert_eq!(page[1].0.price, Price::Fixed(dec("2")));
    // a scan of one side does not come by it
    let page = Order::by_owner(&book, &owner, Some(Side::Quote), None, None).unwrap();
    assert_eq!(page.len(), 2);
}

#[test]
fn funds_of_a_batch_are_added_up() {
    let config = pair();
    let contract = EXCHANGE.to_string();
    let next = execute(
        &config,
        &contract,
        contract.clone(),
        vec![coin(5, "eth-usdc"), coin(1, "btc-btc"), coin(7, "eth-usdc")],
        1,
        ExecuteMsg::DoOrder("owner".to_string(), vec![], None),
    )
    .unwrap();
    match next {
        Next::Orders { manager, .. } => {
            assert_eq!(manager.receive.amount(&"eth-usdc".to_string()), 12);
            assert_eq!(manager.receive.amount(&"btc-btc".to_string()), 1);
        }
        other => panic!("unexpected step {:?}", other),
    }
    assert_eq!(
        execute(
            &config,
            &contract,
            contract.clone(),
            vec![coin(u128::MAX, "eth-usdc"), coin(1, "eth-usdc")],
            1,
            ExecuteMsg::DoOrder("owner".to_string(), vec![], None),
        )
        .unwrap_err(),
        ContractError::Overflow
    );
}

#[test]
fn unreadable_order_fails_the_page_that_holds_it() {
    let mut store = MockStorage::new();
    let config = config(4);
    let mut e = manager(&config, vec![coin(1000, "usdc")]);
    run_orders(
        &mut e,
        &mut store,
        &config,
        vec![
            (Side::Quote, Price::Fixed(dec("1")), Some(100u128)),
            (Side::Quote, Price::Fixed(dec("2")), Some(200u128)),
            (Side::Quote, Price::Fixed(dec("3")), Some(300u128)),
        ],
        None,
    )
    .unwrap();
    // spoil what is stored for the order at the lowest price
    let space = [0u8, 6, b'o', b'r', b'd', b'e', b'r', b's'];
    let stored: Vec<Record> = store
        .range(None, None, cosmwasm_std::Order::Ascending)
        .filter(|(k, _)| k.starts_with(&space))
        .collect();
    assert_eq!(stored.len(), 3);
    store.set(&stored[0].0, b"spoilt");

    let book = Book::new(&mut store);
    let owner = "addr0000".to_string();
    // a page that holds the entry fails
    assert_eq!(
        Order::by_owner(&book, &owner, None, None, None).unwrap_err(),
        ContractError::Std
    );
    assert_eq!(
        query_orders(&book, &owner, None, None, None, None).unwrap_err(),
        ContractError::Std
    );
    assert_eq!(
        Order::by_owner(&book, &owner, Some(Side::Quote), None, None).unwrap_err(),
        ContractError::Std
    );
    // a page that starts behind it, or ends before it, is answered
    let page = Order::by_owner(&book, &owner, None, Some(1), None).unwrap();
    assert_eq!(page.len(), 2);
    assert_eq!(page[0].0.price, Price::Fixed(dec("2")));
    assert_eq!(page[1].0.price, Price::Fixed(dec("3")));
    let page = Order::by_owner(&book, &owner, Some(Side::Quote), None, Some(2)).unwrap();
    assert_eq!(page.len(), 2);
    assert_eq!(page[0].0.price, Price::Fixed(dec("3")));
    assert_eq!(page[1].0.price, Price::Fixed(dec("2")));
    let shown = query_orders(&book, &owner, None, Some(1), Some(1), None).unwrap();
    assert_eq!(shown.len(), 1);
    assert_eq!(shown[0].remaining, 200);
}

#[test]
fn second_step_that_fails_takes_back_the_first() {
    let mut store = MockStorage::new();
    let config = config(2);
    let mut maker = OrderManager::new(
        &config,
        "maker".to_string(),
        1,
        Balance::new(vec![coin(1000, "ruji")]).unwrap(),
    );
    run_orders(
        &mut maker,
        &mut store,
        &config,
        vec![(Side::Base, Price::Fixed(dec("1")), Some(50))],
        None,
    )
    .unwrap();
    let before = records(&store);
    // what the first step wrote goes to the journal of the call
    let journal = Journal::default();
    with_book(&mut store, &journal, |book| {
        let mut pool = Pool::load(book, &Price::Fixed(dec("3")), &Side::Base, None).unwrap();
        pool.create_order(book, 1, &"arb".to_string(), 5).unwrap();
    });
    assert_ne!(records(&store), before);
    // a swap whose settlement cannot be booked: both denominations of the
    // pair are one, and what is paid out leaves 128 bits
    let twin = Config::new(
        Denoms::new("usdc", "usdc"),
        None,
        vec![],
        Tick::new(2),
        0,
        0,
        "".to_string(),
    );
    let outcome = SwapOutcome {
        return_amount: u128::MAX,
        consumed_offer: 1,
        remaining_offer: 1,
        fee_amount: 0,
        events: vec![],
        commitments: vec![],
    };
    let res = with_book(&mut store, &journal, |book| {
        settle_swap(
            &twin,
            &Side::Base,
            "user".to_string(),
            SwapRequest::Yolo {
                to: None,
                callback: None,
            },
            outcome,
            book,
        )
    });
    assert_eq!(res, Err(ContractError::Overflow));
    assert_eq!(records(&store), before);

    // a batch as the second step: its failure takes back the first step too
    with_book(&mut store, &journal, |book| {
        let mut pool = Pool::load(book, &Price::Fixed(dec("3")), &Side::Base, None).unwrap();
        pool.create_order(book, 1, &"arb".to_string(), 5).unwrap();
    });
    let mut e = manager(&config, vec![coin(1000, "usdc")]);
    let res = with_book(&mut store, &journal, |book| {
        e.execute_orders(
            book,
            &vec![(Side::Quote, Price::Fixed(dec("1.001")), Some(100))],
            0,
            None,
        )
    });
    assert_eq!(res, Err(ContractError::Tick { price: dec("1.001") }));
    assert_eq!(records(&store), before);
}

#[test]
fn maybe_withdraw_splits_the_claim() {
    let mut store = MockStorage::new();
    let config = config(4);
    let mut maker = manager(&config, vec![coin(1000, "usdc")]);
    run_orders(
        &mut maker,
        &mut store,
        &config,
        vec![(Side::Quote, Price::Fixed(dec("1")), Some(1000))],
        None,
    )
    .unwrap();
    run_swap(&mut store, &config, &Side::Quote, 500, 0, None, None);

    let mut book = Book::new(&mut store);
    let price = Price::Fixed(dec("1"));
    let mut pool = Pool::load(&book, &price, &Side::Quote, None).unwrap();
    let owner = "addr0000".to_string();
    let mut order = pool.load_order(&book, &owner).unwrap();
    assert_eq!(order.filled(), Some(500));
    assert_eq!(order.amount(), Some(500));

    let mut e = manager(&config, vec![]);
    assert_eq!(
        e.maybe_withdraw(&mut book, &mut pool, &mut order, &Side::Quote),
        Ok(())
    );
    // the fee of one in a thousand, rounded up, and the rest
    assert_eq!(e.fees.amount(&"ruji".to_string()), 1);
    assert_eq!(e.receive.amount(&"ruji".to_string()), 499);
    assert_eq!(e.send, Balance::empty());
    assert_eq!(e.events.len(), 1);
    check_event(
        &e.events[0],
        "rujira-fin/order.withdraw",
        "quote",
        "fixed:1",
        "amount",
        "500",
    );
    assert_eq!(order.filled(), Some(0));
    assert_eq!(order.amount(), Some(500));
    let stored = pool.load_order(&book, &owner).unwrap();
    assert_eq!(stored.filled(), Some(0));
    assert_eq!(stored.amount(), Some(500));

    // with nothing filled, nothing changes
    let after = e.clone();
    assert_eq!(
        e.maybe_withdraw(&mut book, &mut pool, &mut order, &Side::Quote),
        Ok(())
    );
    assert_eq!(e, after);
}
