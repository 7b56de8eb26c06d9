use cosmwasm_std::testing::{MockQuerier, MockStorage};
use cosmwasm_std::{
    from_json, to_json_binary, ContractResult, Decimal, SystemError, SystemResult, Uint128,
    WasmQuery,
};
use rujira_fin::config::Config;
use rujira_fin::market_maker::{
    Denoms, Fill, MarketMaker, MarketMakerOffer, Quote, Quoter,
};
use rujira_fin::market_makers::MarketMakers;
use rujira_fin::merge::EitherOrBoth;
use rujira_fin::pool::Pool;
use rujira_fin::price::{Price, Side};
use rujira_fin::store::Book;
use rujira_fin::swap_iter::{rate_of_level, total_of_level, SwapIter};
use rujira_fin::tick::Tick;
use rujira_fin::ContractError;
use rujira_rs::bow;
use std::ops::Add;
use std::str::FromStr;

const ONE: u128 = 1_000_000_000_000_000_000;

fn dec(text: &str) -> u128 {
    Decimal::from_str(text).unwrap().atomics().u128()
}

// A market maker that doubles the size it offers with every quote, starting
// at `first`, and raises its price by `step` each time.
fn doubling(first: u128, step: Decimal) -> MockQuerier {
    let mut q = MockQuerier::default();
    q.update_wasm(move |x| match x {
        WasmQuery::Smart { msg, .. } => {
            let query: bow::QueryMsg = from_json(msg).unwrap();
            match query {
                bow::QueryMsg::Quote(query) => {
                    let ask_total: Uint128 = query
                        .data
                        .map(from_json)
                        .transpose()
                        .unwrap()
                        .unwrap_or_default();
                    // Double the order size until we run out of funds
                    if ask_total.gt(&Uint128::from(1000000u128)) {
                        return SystemResult::Err(SystemError::Unknown {});
                    }

                    let size = if ask_total.is_zero() {
                        Uint128::from(first)
                    } else {
                        ask_total * Uint128::from(2u128)
                    };

                    SystemResult::Ok(ContractResult::Ok(
                        to_json_binary(&bow::QuoteResponse {
                            size,
                            data: to_json_binary(&size.add(ask_total)).ok(),
                            price: query.min_price.unwrap_or(Decimal::one()).add(step),
                        })
                        .unwrap(),
                    ))
                }
                bow::QueryMsg::Strategy {} => SystemResult::Err(SystemError::Unknown {}),
            }
        }
        _ => SystemResult::Err(SystemError::Unknown {}),
    });
    q
}

fn offer(contract: &str, price: &str, rate: &str, total: u128, side: Side) -> MarketMakerOffer {
    MarketMakerOffer {
        contract: contract.to_string(),
        price: dec(price),
        rate: dec(rate),
        total,
        side,
        commitment: Fill { offer: 0, bids: 0 },
    }
}

#[test]
fn test_iterator() {
    let q = doubling(100, Decimal::from_ratio(1u128, 4u128));
    let contract = "bow".to_string();
    let mut iter = MarketMaker::new(
        Denoms::new("btc", "usdc"),
        Side::Quote,
        contract.clone(),
        Tick::new(3),
    );
    let quoter = Quoter::new(&q);

    let items: Vec<MarketMakerOffer> = (0..5).map(|_| iter.next(&quoter).unwrap()).collect();

    assert_eq!(
        items,
        vec![
            offer("bow", "1.25", "1.25", 100, Side::Quote),
            offer("bow", "1.5", "1.5", 200, Side::Quote),
            offer("bow", "1.75", "1.75", 600, Side::Quote),
            offer("bow", "2", "2", 1800, Side::Quote),
            offer("bow", "2.25", "2.25", 5400, Side::Quote),
        ]
    );
}

#[test]
fn test_market_market_item_swap() {
    // Quote partial fill
    let mut o = offer("bow", "1.25", "1.25", 10000, Side::Quote);
    let (bid_returned, offer_consumed) = o.swap(500u128).unwrap();
    assert_eq!(bid_returned, 500u128);
    assert_eq!(offer_consumed, 625u128);

    // Quote full fill
    let mut o = offer("bow", "1.25", "1.25", 10000, Side::Quote);
    let (bid_returned, offer_consumed) = o.swap(500000u128).unwrap();
    assert_eq!(bid_returned, 8000u128);
    assert_eq!(offer_consumed, 10000u128);

    // Base partial fill
    let mut o = offer("bow", "1.25", "0.8", 10000, Side::Base);
    let (bid_returned, offer_consumed) = o.swap(500u128).unwrap();
    assert_eq!(bid_returned, 500u128);
    assert_eq!(offer_consumed, 625u128);

    // Base full fill
    let mut o = offer("bow", "1.25", "0.8", 10000, Side::Base);
    let (bid_returned, offer_consumed) = o.swap(500000u128).unwrap();
    assert_eq!(bid_returned, 8000u128);
    assert_eq!(offer_consumed, 10000u128);

    let mut o = offer("bow", "0.00000999", "100100.11", 19980, Side::Base);
    let (bid_returned, offer_consumed) = o.swap(50000000u128).unwrap();
    assert_eq!(bid_returned, 50000000u128);
    assert_eq!(offer_consumed, 499u128);
}

#[test]
fn swap_records_what_it_commits_to() {
    let mut o = offer("bow", "1.25", "1.25", 10000, Side::Quote);
    o.swap(500).unwrap();
    assert_eq!(o.total, 10000 - 625);
    let c = o.commit();
    assert_eq!(c.contract, "bow");
    assert_eq!(c.side, Side::Quote);
    assert_eq!(c.amounts, Fill { offer: 500, bids: 625 });
    o.swap(u64::MAX as u128).unwrap();
    assert_eq!(o.total, 0);
    assert_eq!(o.commit().amounts, Fill { offer: 7500, bids: 9375 });
}

#[test]
fn swap_refuses_what_leaves_its_range() {
    let mut o = offer("bow", "1.25", "1.25", 10000, Side::Quote);
    assert_eq!(o.swap(u128::MAX).unwrap_err(), ContractError::Overflow);
    assert_eq!(o.total, 10000);
    let mut o = offer("bow", "0", "0", 10000, Side::Quote);
    assert_eq!(o.swap(5).unwrap_err(), ContractError::CheckedFromRatio);
}

#[test]
fn attributes_show_the_price_of_the_side() {
    let o = offer("bow", "1.25", "1.25", 10000, Side::Quote);
    let a = o.attributes().unwrap();
    assert_eq!(a[0].key, "price");
    assert_eq!(a[0].value, "bow:1.25");
    assert_eq!(a[1].key, "side");
    assert_eq!(a[1].value, "quote");
    let o = offer("bow", "1.25", "0.8", 10000, Side::Base);
    let a = o.attributes().unwrap();
    assert_eq!(a[0].value, "bow:0.8");
    assert_eq!(a[1].value, "base");
}

#[test]
fn request_carries_price_and_cursor() {
    let mut maker = MarketMaker::new(
        Denoms::new("btc", "usdc"),
        Side::Base,
        "bow".to_string(),
        Tick::new(3),
    );
    let r = maker.request();
    assert_eq!(r.min_price, None);
    assert_eq!(r.ask_denom, "btc");
    assert_eq!(r.offer_denom, "usdc");
    assert_eq!(r.data, None);

    let got = maker
        .accept(Some(Quote {
            price: dec("1.2345"),
            size: 40,
            data: Some(vec![1, 2, 3]),
        }))
        .unwrap();
    // on the base side the rate is the inverse of the price, raised to the tick
    assert_eq!(got.rate, dec("0.811"));
    assert_eq!(got.price, dec("1.2345"));
    assert_eq!(got.total, 40);
    assert_eq!(maker.ask, 40);
    // the value of the quote, rounded up
    assert_eq!(maker.bid, 50);
    let r = maker.request();
    assert_eq!(r.min_price, Some(dec("1.2345")));
    assert_eq!(r.data, Some(vec![1, 2, 3]));

    // on the quote side the rate is the price cut down to the tick
    let mut maker = MarketMaker::new(
        Denoms::new("btc", "usdc"),
        Side::Quote,
        "bow".to_string(),
        Tick::new(3),
    );
    let r = maker.request();
    assert_eq!(r.ask_denom, "usdc");
    assert_eq!(r.offer_denom, "btc");
    let got = maker
        .accept(Some(Quote {
            price: dec("1.2345"),
            size: 40,
            data: None,
        }))
        .unwrap();
    assert_eq!(got.rate, dec("1.23"));
}

#[test]
fn unusable_answer_ends_the_sequence() {
    let mut maker = MarketMaker::new(
        Denoms::new("btc", "usdc"),
        Side::Base,
        "bow".to_string(),
        Tick::new(3),
    );
    let before = maker.clone();
    assert_eq!(maker.accept(None), None);
    assert_eq!(maker, before);
    // no inverse of a zero price
    assert_eq!(
        maker.accept(Some(Quote {
            price: 0,
            size: 1,
            data: None
        })),
        None
    );
    // a value that leaves its range
    assert_eq!(
        maker.accept(Some(Quote {
            price: ONE,
            size: u128::MAX,
            data: None
        })),
        None
    );
    assert_eq!(maker, before);

    // a failing query is the end, not an error
    let mut q = MockQuerier::default();
    q.update_wasm(|_| SystemResult::Err(SystemError::Unknown {}));
    let quoter = Quoter::new(&q);
    assert_eq!(maker.next(&quoter), None);
    assert_eq!(maker, before);
}

#[test]
fn market_makers_are_a_set() {
    let m = MarketMakers::new(vec![
        "b".to_string(),
        "a".to_string(),
        "b".to_string(),
        "c".to_string(),
        "a".to_string(),
    ]);
    assert_eq!(m.contracts, vec!["a", "b", "c"]);
}

// Which of two contracts is asked decides the first size and the steps by
// which the price falls from three.
fn two_makers() -> MockQuerier {
    let mut q = MockQuerier::default();
    q.update_wasm(|x| match x {
        WasmQuery::Smart { contract_addr, msg } => {
            let query: bow::QueryMsg = from_json(msg).unwrap();
            let (first, step) = if contract_addr == "slow" {
                (100u128, Decimal::from_ratio(1u128, 4u128))
            } else {
                (7u128, Decimal::from_ratio(1u128, 2u128))
            };
            match query {
                bow::QueryMsg::Quote(query) => {
                    let ask_total: Uint128 = query
                        .data
                        .map(from_json)
                        .transpose()
                        .unwrap()
                        .unwrap_or_default();
                    if ask_total.gt(&Uint128::from(1000u128)) {
                        return SystemResult::Err(SystemError::Unknown {});
                    }
                    let size = if ask_total.is_zero() {
                        Uint128::from(first)
                    } else {
                        ask_total * Uint128::from(2u128)
                    };
                    let last = query.min_price.unwrap_or(Decimal::from_str("3").unwrap());
                    SystemResult::Ok(ContractResult::Ok(
                        to_json_binary(&bow::QuoteResponse {
                            size,
                            data: to_json_binary(&size.add(ask_total)).ok(),
                            price: last - step,
                        })
                        .unwrap(),
                    ))
                }
                bow::QueryMsg::Strategy {} => SystemResult::Err(SystemError::Unknown {}),
            }
        }
        _ => SystemResult::Err(SystemError::Unknown {}),
    });
    q
}

#[test]
fn groups_come_by_rate_and_ties_come_together() {
    let q = two_makers();
    let quoter = Quoter::new(&q);
    let makers = MarketMakers::new(vec!["slow".to_string(), "fast".to_string()]);
    // on the quote side the better rate is the higher one
    let mut iter = makers.iter(&Denoms::new("btc", "usdc"), &Tick::new(4), &Side::Quote);
    let mut seen: Vec<Vec<(String, u128, u128)>> = vec![];
    while let Some(group) = iter.next(&quoter) {
        seen.push(
            group
                .into_iter()
                .map(|o| (o.contract, o.rate, o.total))
                .collect(),
        );
    }
    let slow = |rate: &str, size: u128| ("slow".to_string(), dec(rate), size);
    let fast = |rate: &str, size: u128| ("fast".to_string(), dec(rate), size);
    assert_eq!(
        seen,
        vec![
            vec![slow("2.75", 100)],
            // levels that tie come as one group, in the order of the sources
            vec![fast("2.5", 7), slow("2.5", 200)],
            vec![slow("2.25", 600)],
            vec![fast("2", 14), slow("2", 1800)],
            vec![fast("1.5", 42)],
            vec![fast("1", 126)],
            vec![fast("0.5", 378)],
        ]
    );
    // nothing more comes once every source has ended
    assert_eq!(iter.next(&quoter), None);
}

fn config(makers: Vec<String>) -> Config {
    Config::new(
        Denoms::new("btc", "usdc"),
        None,
        makers,
        Tick::new(4),
        dec("0.002"),
        dec("0.001"),
        "fees".to_string(),
    )
}

#[test]
fn traversal_merges_pools_and_market_makers() {
    let mut store = MockStorage::new();
    {
        let mut book = Book::new(&mut store);
        for (price, size) in [("1.1", 10u128), ("1.25", 20), ("1.7", 30)] {
            let mut pool =
                Pool::load(&book, &Price::Fixed(dec(price)), &Side::Base, None).unwrap();
            pool.create_order(&mut book, 0, &"owner".to_string(), size)
                .unwrap();
        }
    }
    // a market maker on the base side whose prices stand for the rates 1.25,
    // 1.6 and 2, in sizes that double from 100
    let mut q = MockQuerier::default();
    q.update_wasm(|x| match x {
        WasmQuery::Smart { msg, .. } => {
            let query: bow::QueryMsg = from_json(msg).unwrap();
            match query {
                bow::QueryMsg::Quote(query) => {
                    let n: u32 = query
                        .data
                        .map(from_json)
                        .transpose()
                        .unwrap()
                        .unwrap_or_default();
                    let prices = ["0.8", "0.625", "0.5"];
                    if n as usize >= prices.len() {
                        return SystemResult::Err(SystemError::Unknown {});
                    }
                    SystemResult::Ok(ContractResult::Ok(
                        to_json_binary(&bow::QuoteResponse {
                            size: Uint128::from(100u128 << n),
                            data: to_json_binary(&(n + 1)).ok(),
                            price: Decimal::from_str(prices[n as usize]).unwrap(),
                        })
                        .unwrap(),
                    ))
                }
                bow::QueryMsg::Strategy {} => SystemResult::Err(SystemError::Unknown {}),
            }
        }
        _ => SystemResult::Err(SystemError::Unknown {}),
    });
    let quoter = Quoter::new(&q);
    let config = config(vec!["bow".to_string()]);
    let book = Book::new(&mut store);
    let mut traversal = SwapIter::new(&config)
        .iter(&book, &Side::Base, None)
        .unwrap();
    let mut seen: Vec<(u128, u128, &str)> = vec![];
    while let Some(level) = traversal.next(&quoter) {
        let kind = match &level {
            EitherOrBoth::Left(_) => "pools",
            EitherOrBoth::Right(_) => "makers",
            EitherOrBoth::Both(_, _) => "both",
        };
        seen.push((rate_of_level(&level), total_of_level(&level).unwrap(), kind));
    }
    assert_eq!(
        seen,
        vec![
            (dec("1.1"), 10, "pools"),
            (dec("1.25"), 120, "both"),
            (dec("1.6"), 200, "makers"),
            (dec("1.7"), 30, "pools"),
            (dec("2"), 400, "makers"),
        ]
    );
}

#[test]
fn traversal_without_market_makers_is_the_pools() {
    let mut store = MockStorage::new();
    {
        let mut book = Book::new(&mut store);
        for price in ["1.1", "1.5"] {
            let mut pool =
                Pool::load(&book, &Price::Fixed(dec(price)), &Side::Quote, None).unwrap();
            pool.create_order(&mut book, 0, &"owner".to_string(), 5)
                .unwrap();
        }
    }
    let q = MockQuerier::default();
    let quoter = Quoter::new(&q);
    let config = config(vec![]);
    let book = Book::new(&mut store);
    let mut traversal = SwapIter::new(&config)
        .iter(&book, &Side::Quote, None)
        .unwrap();
    let a = traversal.next(&quoter).unwrap();
    assert_eq!(rate_of_level(&a), dec("1.5"));
    let b = traversal.next(&quoter).unwrap();
    assert_eq!(rate_of_level(&b), dec("1.1"));
    assert_eq!(traversal.next(&quoter), None);
    assert_eq!(traversal.next(&quoter), None);
}
