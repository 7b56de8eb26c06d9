use cosmwasm_std::testing::MockStorage;
use cosmwasm_std::{Order as ScanOrder, StdResult};
use cw_storage_plus::Bound;
use rujira_fin::merge::EitherOrBoth;
use rujira_fin::order::Order;
use rujira_fin::pool::Pool;
use rujira_fin::price::{PoolKey, PoolType, Price, Side};
use rujira_fin::store::Book;
use rujira_fin::ContractError;
use rujira_rs::bid_pool;

const ONE: u128 = 1_000_000_000_000_000_000;

fn ratio(n: u128, d: u128) -> u128 {
    cosmwasm_std::Decimal::from_ratio(n, d).atomics().u128()
}

fn markers() -> cw_storage_plus::Map<(u8, u8, Vec<u8>), ()> {
    cw_storage_plus::Map::new("pools")
}

fn bid_pools() -> cw_storage_plus::Map<(u8, u8, Vec<u8>), bid_pool::Pool> {
    cw_storage_plus::Map::new("bid-pools")
}

fn raw_key(key: &PoolKey) -> (u8, u8, Vec<u8>) {
    (
        key.side.key_byte(),
        key.price.pool_type().key_byte(),
        key.price.key_bytes(),
    )
}

fn read_key(raw: (u8, u8, Vec<u8>)) -> (Side, PoolType, Price) {
    let side = if raw.0 == 0 { Side::Base } else { Side::Quote };
    (
        side,
        PoolType::from_byte(raw.1).unwrap(),
        Price::from_key_bytes(&raw.2, 0).unwrap(),
    )
}

fn place(store: &mut MockStorage, price: Price, side: Side, owner: &str, offer: u128) {
    let mut book = Book::new(store);
    let mut pool = Pool::load(&book, &price, &side, Some(ONE)).unwrap();
    pool.create_order(&mut book, 0, &owner.to_string(), offer)
        .unwrap();
}

// When a pool is emptied its marker goes, the engine state stays, and the
// state that stays is what a later load starts from.
#[test]
fn pool_bid_pool_replacement() {
    let mut store = MockStorage::new();
    let owner = "owner".to_string();
    let offer = 100u128;
    let price = Price::Fixed(ONE);
    let oracle = Some(ONE);
    let k = PoolKey::new(Side::Quote, price);
    let mut pool = {
        let mut book = Book::new(&mut store);
        let mut pool = Pool::load(&book, &price, &Side::Quote, oracle).unwrap();
        pool.create_order(&mut book, 0, &owner, offer).unwrap();
        pool.commit(&mut book);
        pool
    };
    // Both the marker and the engine pool are stored
    markers().load(&store, raw_key(&k)).unwrap();
    bid_pools().load(&store, raw_key(&k)).unwrap();

    pool.swap(100u128).unwrap();

    {
        let mut book = Book::new(&mut store);
        pool.commit(&mut book);
    }
    markers().load(&store, raw_key(&k)).unwrap_err();
    let bp = bid_pools().load(&store, raw_key(&k)).unwrap();
    // It differs from the default
    assert_ne!(bp, bid_pool::Pool::default());

    // And it is what a load restores
    let book = Book::new(&mut store);
    let pool = Pool::load(&book, &price, &Side::Quote, oracle).unwrap();
    assert_eq!(pool.pool, bp);
}

#[test]
fn pools_map() {
    let mut store = MockStorage::new();
    let offer = 100u128;
    place(&mut store, Price::Oracle(0), Side::Quote, "owner", offer);
    place(&mut store, Price::Oracle(-1), Side::Quote, "owner", offer);
    place(&mut store, Price::Oracle(1), Side::Quote, "owner", offer);
    place(&mut store, Price::Oracle(2), Side::Quote, "owner", offer);
    place(&mut store, Price::Oracle(2), Side::Base, "owner", offer);
    place(&mut store, Price::Fixed(ONE), Side::Base, "owner", offer);
    place(
        &mut store,
        Price::Fixed(ratio(10, 9)),
        Side::Quote,
        "owner",
        offer,
    );

    {
        let book = Book::new(&mut store);
        let pool = Pool::load(&book, &Price::Oracle(0), &Side::Quote, Some(ONE)).unwrap();
        assert_eq!(pool.price, Price::Oracle(0));
        assert_eq!(pool.side, Side::Quote);
    }

    let iter = markers().range(&store, None, None, ScanOrder::Ascending);

    let ordered = iter
        .collect::<StdResult<Vec<((u8, u8, Vec<u8>), ())>>>()
        .unwrap();
    assert_eq!(ordered.len(), 7);

    // Ordered by side, then family, then price
    let (side, _, price) = read_key(ordered[0].0.clone());
    assert_eq!(side, Side::Base);
    assert_eq!(price, Price::Fixed(ONE));

    let (side, _, price) = read_key(ordered[1].0.clone());
    assert_eq!(side, Side::Base);
    assert_eq!(price, Price::Oracle(2));

    let (side, _, price) = read_key(ordered[2].0.clone());
    assert_eq!(side, Side::Quote);
    assert_eq!(price, Price::Fixed(1_111_111_111_111_111_111));

    let (side, _, price) = read_key(ordered[3].0.clone());
    assert_eq!(side, Side::Quote);
    assert_eq!(price, Price::Oracle(-1));

    let (side, _, price) = read_key(ordered[4].0.clone());
    assert_eq!(side, Side::Quote);
    assert_eq!(price, Price::Oracle(0));

    let (side, _, price) = read_key(ordered[5].0.clone());
    assert_eq!(side, Side::Quote);
    assert_eq!(price, Price::Oracle(1));

    let (side, _, price) = read_key(ordered[6].0.clone());
    assert_eq!(side, Side::Quote);
    assert_eq!(price, Price::Oracle(2));

    let iter = markers()
        .sub_prefix(Side::Base.key_byte())
        .range(&store, None, None, ScanOrder::Ascending);

    let ordered = iter
        .collect::<StdResult<Vec<((u8, Vec<u8>), ())>>>()
        .unwrap();

    assert_eq!(ordered.len(), 2);

    let (key, _) = ordered[0].clone();
    assert_eq!(PoolType::from_byte(key.0).unwrap(), PoolType::Fixed);
    assert_eq!(Price::from_key_bytes(&key.1, 0).unwrap(), Price::Fixed(ONE));

    let (key, _) = ordered[1].clone();
    assert_eq!(PoolType::from_byte(key.0).unwrap(), PoolType::Oracle);
    assert_eq!(Price::from_key_bytes(&key.1, 0).unwrap(), Price::Oracle(2));

    let iter = markers()
        .prefix((Side::Quote.key_byte(), PoolType::Oracle.key_byte()))
        .range(&store, None, None, ScanOrder::Ascending);

    let ordered = iter.collect::<StdResult<Vec<(Vec<u8>, ())>>>().unwrap();

    assert_eq!(ordered.len(), 4);

    let (price, _) = ordered[0].clone();
    assert_eq!(Price::from_key_bytes(&price, 0).unwrap(), Price::Oracle(-1));

    let (price, _) = ordered[1].clone();
    assert_eq!(Price::from_key_bytes(&price, 0).unwrap(), Price::Oracle(0));

    let (price, _) = ordered[2].clone();
    assert_eq!(Price::from_key_bytes(&price, 0).unwrap(), Price::Oracle(1));

    let (price, _) = ordered[3].clone();
    assert_eq!(Price::from_key_bytes(&price, 0).unwrap(), Price::Oracle(2));

    let iter = markers()
        .prefix((Side::Quote.key_byte(), PoolType::Oracle.key_byte()))
        .range(
            &store,
            Some(Bound::exclusive(Price::Oracle(0).key_bytes())),
            None,
            ScanOrder::Ascending,
        );

    let ordered = iter.collect::<StdResult<Vec<(Vec<u8>, ())>>>().unwrap();

    assert_eq!(ordered.len(), 2);

    let (price, _) = ordered[0].clone();
    assert_eq!(Price::from_key_bytes(&price, 0).unwrap(), Price::Oracle(1));

    let (price, _) = ordered[1].clone();
    assert_eq!(Price::from_key_bytes(&price, 0).unwrap(), Price::Oracle(2));
}

#[test]
fn side_iter() {
    let mut store = MockStorage::new();
    let offer = 100u128;
    let oracle = Some(ONE);
    place(&mut store, Price::Oracle(0), Side::Quote, "owner", offer);
    place(&mut store, Price::Oracle(-1), Side::Quote, "owner", offer);
    place(&mut store, Price::Oracle(1), Side::Quote, "owner", offer);
    place(&mut store, Price::Oracle(2), Side::Quote, "owner", offer);
    place(&mut store, Price::Oracle(2), Side::Base, "owner", offer);
    place(&mut store, Price::Fixed(ONE), Side::Base, "owner", offer);
    place(&mut store, Price::Fixed(ONE), Side::Quote, "owner", offer);
    place(&mut store, Price::Oracle(-1), Side::Base, "owner", offer);
    place(&mut store, Price::Oracle(1), Side::Base, "owner", offer);
    place(&mut store, Price::Oracle(2), Side::Base, "owner", offer);
    place(
        &mut store,
        Price::Fixed(ratio(10, 9)),
        Side::Quote,
        "owner",
        offer,
    );
    place(
        &mut store,
        Price::Fixed(ratio(15, 9)),
        Side::Quote,
        "owner",
        offer,
    );
    place(
        &mut store,
        Price::Fixed(ratio(21, 9)),
        Side::Quote,
        "owner",
        offer,
    );

    let book = Book::new(&mut store);
    let ordered: Vec<EitherOrBoth<Pool, Pool>> = Pool::iter(&book, &Side::Quote, oracle).unwrap();
    assert_eq!(ordered.len(), 7);

    let x = ordered[0].clone();
    assert_eq!(x.clone().left().unwrap().rate(), ratio(21, 9));
    assert_eq!(x.right(), None);

    let x = ordered[1].clone();
    assert_eq!(x.clone().left().unwrap().rate(), ratio(15, 9));
    assert_eq!(x.right(), None);

    let x = ordered[2].clone();
    assert_eq!(x.clone().left().unwrap().rate(), ratio(10, 9));
    assert_eq!(x.right(), None);

    let x = ordered[3].clone();
    assert_eq!(x.clone().left(), None);
    assert_eq!(x.right().unwrap().rate(), ratio(10002, 10000));

    let x = ordered[4].clone();
    assert_eq!(x.clone().left(), None);
    assert_eq!(x.right().unwrap().rate(), ratio(10001, 10000));

    let x = ordered[5].clone();
    assert_eq!(x.clone().left().unwrap().rate(), ONE);
    assert_eq!(
        x.clone().right().unwrap().rate(),
        x.clone().left().unwrap().rate(),
    );

    let x = ordered[6].clone();
    assert_eq!(x.clone().left(), None);
    assert_eq!(x.right().unwrap().rate(), ratio(9999, 10000));

    let ordered: Vec<EitherOrBoth<Pool, Pool>> = Pool::iter(&book, &Side::Base, oracle).unwrap();

    assert_eq!(ordered.len(), 4);

    let x = ordered[0].clone();
    assert_eq!(x.clone().left(), None);
    assert_eq!(x.right().unwrap().rate(), ratio(9999, 10000));

    let x = ordered[1].clone();
    assert_eq!(x.clone().left().unwrap().rate(), ONE);
    assert_eq!(x.right(), None);

    let x = ordered[2].clone();
    assert_eq!(x.clone().left(), None);
    assert_eq!(x.right().unwrap().rate(), ratio(10001, 10000));

    let x = ordered[3].clone();
    assert_eq!(x.clone().left(), None);
    assert_eq!(x.right().unwrap().rate(), ratio(10002, 10000));
}

#[test]
fn query_order() {
    let mut store = MockStorage::new();
    let owner = "owner".to_string();
    let offer = 100u128;
    let oracle = Some(ONE);
    let mut book = Book::new(&mut store);
    let mut pool = Pool::load(&book, &Price::Oracle(0), &Side::Quote, oracle).unwrap();
    pool.create_order(&mut book, 0, &owner, offer).unwrap();

    pool.commit(&mut book);

    let order = Order::load(&book, &owner, &Side::Quote, &Price::Oracle(0)).unwrap();
    assert_eq!(order.owner, owner);
    assert_eq!(order.offer, offer);
}

#[test]
fn query_orders_by_owner() {
    let mut store = MockStorage::new();
    let owner = "owner".to_string();
    let owner2 = "owner2".to_string();
    let offer = 100u128;
    let oracle = Some(ONE);
    let mut book = Book::new(&mut store);
    let mut pool1 = Pool::load(&book, &Price::Oracle(0), &Side::Quote, oracle).unwrap();
    let mut pool2 = Pool::load(&book, &Price::Oracle(1), &Side::Quote, oracle).unwrap();
    let mut pool3 = Pool::load(&book, &Price::Oracle(2), &Side::Quote, oracle).unwrap();
    let mut pool4 = Pool::load(&book, &Price::Fixed(ONE), &Side::Quote, oracle).unwrap();
    let mut pool5 = Pool::load(
        &book,
        &Price::Fixed(1_100_000_000_000_000_000),
        &Side::Quote,
        oracle,
    )
    .unwrap();
    let mut pool6 = Pool::load(
        &book,
        &Price::Fixed(1_200_000_000_000_000_000),
        &Side::Quote,
        oracle,
    )
    .unwrap();
    let mut pool7 = Pool::load(
        &book,
        &Price::Fixed(1_200_000_000_000_000_000),
        &Side::Base,
        oracle,
    )
    .unwrap();

    pool1.create_order(&mut book, 0, &owner, offer).unwrap();
    pool2.create_order(&mut book, 0, &owner, offer).unwrap();
    pool3.create_order(&mut book, 0, &owner, offer).unwrap();
    pool4.create_order(&mut book, 0, &owner, offer).unwrap();
    pool5.create_order(&mut book, 0, &owner, offer).unwrap();
    pool6.create_order(&mut book, 0, &owner, offer).unwrap();
    pool7.create_order(&mut book, 0, &owner, offer).unwrap();

    pool1.create_order(&mut book, 0, &owner2, offer).unwrap();

    pool1.commit(&mut book);

    let orders = Order::by_owner(&book, &owner, None, None, None).unwrap();
    assert_eq!(orders.len(), 7);
    assert_eq!(orders[0].1.owner, owner);
    assert_eq!(orders[0].1.offer, offer);

    let orders = Order::by_owner(&book, &owner, Some(Side::Quote), None, None).unwrap();
    assert_eq!(orders.len(), 6);
    assert_eq!(orders[0].1.owner, owner);
    assert_eq!(orders[0].1.offer, offer);
}

#[test]
fn orders_of_one_side_come_in_its_direction() {
    let mut store = MockStorage::new();
    for v in [3u128, 1, 2] {
        place(&mut store, Price::Fixed(v * ONE), Side::Base, "owner", 10);
        place(&mut store, Price::Fixed(v * ONE), Side::Quote, "owner", 10);
    }
    let book = Book::new(&mut store);
    let owner = "owner".to_string();
    let base = Order::by_owner(&book, &owner, Some(Side::Base), None, None).unwrap();
    let prices: Vec<Price> = base.iter().map(|(k, _)| k.price).collect();
    assert_eq!(
        prices,
        vec![Price::Fixed(ONE), Price::Fixed(2 * ONE), Price::Fixed(3 * ONE)]
    );
    let quote = Order::by_owner(&book, &owner, Some(Side::Quote), None, None).unwrap();
    let prices: Vec<Price> = quote.iter().map(|(k, _)| k.price).collect();
    assert_eq!(
        prices,
        vec![Price::Fixed(3 * ONE), Price::Fixed(2 * ONE), Price::Fixed(ONE)]
    );
    let all = Order::by_owner(&book, &owner, None, None, None).unwrap();
    let sides: Vec<Side> = all.iter().map(|(k, _)| k.side).collect();
    assert_eq!(
        sides,
        vec![Side::Base, Side::Base, Side::Base, Side::Quote, Side::Quote, Side::Quote]
    );
}

#[test]
fn pages_are_clamped_never_refused() {
    let mut store = MockStorage::new();
    for v in 1..=40u128 {
        place(&mut store, Price::Fixed(v * ONE), Side::Base, "owner", 10);
    }
    let book = Book::new(&mut store);
    let owner = "owner".to_string();
    // ten where nothing is asked for
    assert_eq!(Order::by_owner(&book, &owner, None, None, None).unwrap().len(), 10);
    // never more than thirty-one
    assert_eq!(
        Order::by_owner(&book, &owner, None, None, Some(200)).unwrap().len(),
        31
    );
    let page = Order::by_owner(&book, &owner, Some(Side::Base), Some(38), Some(5)).unwrap();
    let prices: Vec<Price> = page.iter().map(|(k, _)| k.price).collect();
    assert_eq!(prices, vec![Price::Fixed(39 * ONE), Price::Fixed(40 * ONE)]);
    // an offset behind the last order gives an empty page
    assert_eq!(
        Order::by_owner(&book, &owner, None, Some(200), None).unwrap().len(),
        0
    );
    assert_eq!(
        Order::by_owner(&book, &"nobody".to_string(), None, None, None)
            .unwrap()
            .len(),
        0
    );
}

#[test]
fn missing_order_is_not_found() {
    let mut store = MockStorage::new();
    place(&mut store, Price::Fixed(ONE), Side::Base, "owner", 10);
    let book = Book::new(&mut store);
    let res = Order::load(&book, &"other".to_string(), &Side::Base, &Price::Fixed(ONE));
    assert_eq!(res.unwrap_err(), ContractError::NotFound);
    let res = Order::load(&book, &"owner".to_string(), &Side::Quote, &Price::Fixed(ONE));
    assert_eq!(res.unwrap_err(), ContractError::NotFound);
    let pool = Pool::load(&book, &Price::Fixed(2 * ONE), &Side::Base, None).unwrap();
    assert_eq!(
        pool.load_order(&book, &"owner".to_string()).unwrap_err(),
        ContractError::NotFound
    );
}

#[test]
fn oracle_price_needs_a_reading() {
    let mut store = MockStorage::new();
    let book = Book::new(&mut store);
    let res = Pool::load(&book, &Price::Oracle(5), &Side::Base, None);
    assert_eq!(res.unwrap_err(), ContractError::Oracle);
    let res = Pool::load(&book, &Price::Oracle(-10001), &Side::Base, Some(ONE));
    assert_eq!(res.unwrap_err(), ContractError::Oracle);
    let pool = Pool::load(&book, &Price::Oracle(-10000), &Side::Base, Some(ONE)).unwrap();
    assert_eq!(pool.rate(), 0);
    let pool = Pool::load(&book, &Price::Oracle(150), &Side::Base, Some(2 * ONE)).unwrap();
    assert_eq!(pool.rate(), 2_030_000_000_000_000_000);
}

#[test]
fn traversal_is_in_the_order_of_the_side() {
    let mut store = MockStorage::new();
    let oracle = Some(1_234_567_890_123_456_789u128);
    let mut seed: u64 = 7;
    for _ in 0..25 {
        seed = seed.wrapping_mul(6364136223846793005).wrapping_add(1442695040888963407);
        let fixed = (seed >> 20) as u128 % 5000 + 1;
        seed = seed.wrapping_mul(6364136223846793005).wrapping_add(1442695040888963407);
        let bps = ((seed >> 20) % 4000) as i16 - 2000;
        for side in [Side::Base, Side::Quote] {
            let mut book = Book::new(&mut store);
            let mut pool =
                Pool::load(&book, &Price::Fixed(fixed * ONE / 1000), &side, oracle).unwrap();
            pool.create_order(&mut book, 0, &"a".to_string(), 5).unwrap();
            let mut pool = Pool::load(&book, &Price::Oracle(bps), &side, oracle).unwrap();
            pool.create_order(&mut book, 0, &"a".to_string(), 5).unwrap();
        }
    }
    let book = Book::new(&mut store);
    let rate = |x: &EitherOrBoth<Pool, Pool>| match x {
        EitherOrBoth::Left(p) => p.rate(),
        EitherOrBoth::Right(p) => p.rate(),
        EitherOrBoth::Both(p, q) => {
            assert_eq!(p.rate(), q.rate());
            p.rate()
        }
    };
    let base = Pool::iter(&book, &Side::Base, oracle).unwrap();
    assert!(base.len() > 10);
    for w in base.windows(2) {
        assert!(rate(&w[0]) <= rate(&w[1]));
    }
    let quote = Pool::iter(&book, &Side::Quote, oracle).unwrap();
    assert!(quote.len() > 10);
    for w in quote.windows(2) {
        assert!(rate(&w[0]) >= rate(&w[1]));
    }
}

#[test]
fn emptied_level_leaves_the_traversal_and_keeps_its_engine_state() {
    let mut store = MockStorage::new();
    let owner = "owner".to_string();
    let price = Price::Fixed(2 * ONE);
    let mut book = Book::new(&mut store);
    let mut pool = Pool::load(&book, &price, &Side::Base, None).unwrap();
    let mut order = pool.create_order(&mut book, 1, &owner, 1000).unwrap();
    assert_eq!(Pool::iter(&book, &Side::Base, None).unwrap().len(), 1);

    // half of it is filled, the rest is taken back
    let (used, given) = pool.swap(1000).unwrap();
    assert_eq!((used, given), (1000, 500));
    pool.commit(&mut book);
    let mut order_now = pool.load_order(&book, &owner).unwrap();
    assert_eq!(order_now.amount(), Some(500));
    assert_eq!(order_now.filled(), Some(1000));
    let refund = pool
        .retract_order(&mut book, &mut order_now, 2, None)
        .unwrap();
    assert_eq!(refund, 500);
    assert_eq!(Pool::iter(&book, &Side::Base, None).unwrap().len(), 0);

    // the order is still there with its fill, and the engine state survives
    let kept = pool.load_order(&book, &owner).unwrap();
    assert_eq!(kept.amount(), Some(0));
    assert_eq!(kept.filled(), Some(1000));
    let later = Pool::load(&book, &price, &Side::Base, None).unwrap();
    assert_eq!(later.pool, pool.pool);
    assert_ne!(later.pool, bid_pool::Pool::default());

    // a later order at the same price starts from that state: the old order
    // claims once, the new one has nothing to claim
    let mut later = later;
    let other = "other".to_string();
    later.create_order(&mut book, 3, &other, 70).unwrap();
    assert_eq!(Pool::iter(&book, &Side::Base, None).unwrap().len(), 1);
    let mut kept = later.load_order(&book, &owner).unwrap();
    assert_eq!(later.claim_order(&mut book, &mut kept).unwrap(), 1000);
    assert_eq!(
        later.load_order(&book, &owner).unwrap_err(),
        ContractError::NotFound
    );
    let fresh = later.load_order(&book, &other).unwrap();
    assert_eq!(fresh.amount(), Some(70));
    assert_eq!(fresh.filled(), Some(0));
    order.offer = 0;
}
