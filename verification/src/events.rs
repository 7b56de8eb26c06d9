//! Events and their attributes.
use crate::order::Order;
use crate::pool::Pool;
use crate::price::price_text;
use crate::price::Price;
use crate::price::Side;
use vstd::prelude::*;
use vstd::string::StringExecFns;

verus! {

/// A key and a value attached to an event or to a trade.
#[derive(Clone, Debug, PartialEq)]
pub struct Attribute {
    pub key: String,
    pub value: String,
}

/// An event: its type and its attributes, in order.
#[derive(Clone, Debug, PartialEq)]
pub struct Event {
    pub ty: String,
    pub attributes: Vec<Attribute>,
}

/// The text of a ratio, as `cosmwasm_std::Decimal` displays it.
pub uninterp spec fn decimal_text(atomics: u128) -> Seq<char>;

/// Calls `to_string` on the `cosmwasm_std::Decimal` of the given atomic
/// units; its text is named, not stated.
#[verifier::external_body]
pub(crate) fn decimal_to_string(atomics: u128) -> (r: String)
    ensures
        r@ == decimal_text(atomics),
{
    cosmwasm_std::Decimal::raw(atomics).to_string()
}

/// The character of a decimal digit.
pub open spec fn digit_char(d: nat) -> char {
    if d == 0 {
        '0'
    } else if d == 1 {
        '1'
    } else if d == 2 {
        '2'
    } else if d == 3 {
        '3'
    } else if d == 4 {
        '4'
    } else if d == 5 {
        '5'
    } else if d == 6 {
        '6'
    } else if d == 7 {
        '7'
    } else if d == 8 {
        '8'
    } else {
        '9'
    }
}

/// The decimal text of a number, without sign or leading zeros.
pub open spec fn number_text(n: nat) -> Seq<char>
    decreases n,
{
    if n < 10 {
        seq![digit_char(n)]
    } else {
        number_text(n / 10).push(digit_char(n % 10))
    }
}

fn digit(d: u128) -> (r: &'static str)
    requires
        d < 10,
    ensures
        r@ == seq![digit_char(d as nat)],
{
    proof {
        reveal_strlit("0");
        reveal_strlit("1");
        reveal_strlit("2");
        reveal_strlit("3");
        reveal_strlit("4");
        reveal_strlit("5");
        reveal_strlit("6");
        reveal_strlit("7");
        reveal_strlit("8");
        reveal_strlit("9");
    }
    let r = if d == 0 {
        "0"
    } else if d == 1 {
        "1"
    } else if d == 2 {
        "2"
    } else if d == 3 {
        "3"
    } else if d == 4 {
        "4"
    } else if d == 5 {
        "5"
    } else if d == 6 {
        "6"
    } else if d == 7 {
        "7"
    } else if d == 8 {
        "8"
    } else {
        "9"
    };
    assert(r@ =~= seq![digit_char(d as nat)]);
    r
}

/// Writes a number in decimal.
pub fn number_to_string(n: u128) -> (r: String)
    ensures
        r@ == number_text(n as nat),
    decreases n,
{
    if n < 10 {
        String::from_str(digit(n))
    } else {
        let front = number_to_string(n / 10);
        let r = front.concat(digit(n % 10));
        assert(r@ =~= number_text(n as nat));
        r
    }
}

impl Attribute {
    pub fn new(key: &str, value: String) -> (r: Self)
        ensures
            r.key@ == key@,
            r.value@ == value@,
    {
        Attribute { key: String::from_str(key), value }
    }
}

/// Whether an event reports a change of an order: its type, then the owner,
/// the side, the price, and one amount under its own key.
pub open spec fn shows_order(
    event: Event,
    ty: Seq<char>,
    owner: Seq<char>,
    side: Side,
    price: Price,
    key: Seq<char>,
    amount: nat,
) -> bool {
    &&& event.ty@ == ty
    &&& event.attributes.len() == 4
    &&& event.attributes[0].key@ == "owner"@
    &&& event.attributes[0].value@ == owner
    &&& event.attributes[1].key@ == "side"@
    &&& event.attributes[1].value@ == side.spec_label()
    &&& event.attributes[2].key@ == "price"@
    &&& event.attributes[2].value@ == price_text(price)
    &&& event.attributes[3].key@ == key
    &&& event.attributes[3].value@ == number_text(amount)
}

fn order_event(ty: &str, pool: &Pool, order: &Order, key: &str, amount: u128) -> (r: Event)
    ensures
        shows_order(r, ty@, order.owner@, pool.side, pool.price, key@, amount as nat),
{
    let mut attributes: Vec<Attribute> = Vec::new();
    attributes.push(Attribute::new("owner", order.owner.clone()));
    attributes.push(Attribute::new("side", pool.side.label()));
    attributes.push(Attribute::new("price", pool.price.label()));
    attributes.push(Attribute::new(key, number_to_string(amount)));
    Event { ty: String::from_str(ty), attributes }
}

/// The event of a new order: owner, side, price and size.
pub fn event_create_order(pool: &Pool, order: &Order) -> (r: Event)
    ensures
        shows_order(
            r,
            "rujira-fin/order.create"@,
            order.owner@,
            pool.side,
            pool.price,
            "offer"@,
            order.offer as nat,
        ),
{
    order_event("rujira-fin/order.create", pool, order, "offer", order.offer)
}

/// The event of a claim: owner, side, price and the amount claimed.
pub fn event_withdraw_order(pool: &Pool, order: &Order, amount: u128) -> (r: Event)
    ensures
        shows_order(
            r,
            "rujira-fin/order.withdraw"@,
            order.owner@,
            pool.side,
            pool.price,
            "amount"@,
            amount as nat,
        ),
{
    order_event("rujira-fin/order.withdraw", pool, order, "amount", amount)
}

/// The event of an increase: owner, side, price and the amount added.
pub fn event_increase_order(pool: &Pool, order: &Order, amount: u128) -> (r: Event)
    ensures
        shows_order(
            r,
            "rujira-fin/order.increase"@,
            order.owner@,
            pool.side,
            pool.price,
            "amount"@,
            amount as nat,
        ),
{
    order_event("rujira-fin/order.increase", pool, order, "amount", amount)
}

/// The event of a retraction: owner, side, price and the amount taken back.
pub fn event_retract_order(pool: &Pool, order: &Order, amount: u128) -> (r: Event)
    ensures
        shows_order(
            r,
            "rujira-fin/order.retract"@,
            order.owner@,
            pool.side,
            pool.price,
            "amount"@,
            amount as nat,
        ),
{
    order_event("rujira-fin/order.retract", pool, order, "amount", amount)
}

} // verus!
