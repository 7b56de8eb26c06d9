//! Market makers: outside liquidity read one quote at a time.
use crate::error::ContractError;
use crate::events::decimal_text;
use crate::events::decimal_to_string;
use crate::events::Attribute;
use crate::math::invert;
use crate::math::inverse_of;
use crate::math::quotient_fits;
use crate::math::quotient_floor;
use crate::math::quotient_floor_of;
use crate::math::value_ceil;
use crate::math::value_ceil_of;
use crate::math::value_fits;
use crate::math::value_floor;
use crate::math::value_floor_of;
use crate::price::Side;
use crate::tick::ceil_defined;
use crate::tick::ceil_to_tick;
use crate::tick::floor_defined;
use crate::tick::floor_to_tick;
use crate::tick::Tick;
use vstd::prelude::*;
use vstd::string::StringExecFns;

verus! {

/// The two denominations of a pair: base, then quote.
#[derive(Clone, Debug, PartialEq)]
pub struct Denoms {
    pub base: String,
    pub quote: String,
}

impl Denoms {
    pub fn new(base: &str, quote: &str) -> (r: Self)
        ensures
            r.base@ == base@,
            r.quote@ == quote@,
    {
        Denoms { base: String::from_str(base), quote: String::from_str(quote) }
    }

    pub open spec fn spec_ask(self, side: Side) -> Seq<char> {
        match side {
            Side::Base => self.quote@,
            Side::Quote => self.base@,
        }
    }

    pub open spec fn spec_bid(self, side: Side) -> Seq<char> {
        match side {
            Side::Base => self.base@,
            Side::Quote => self.quote@,
        }
    }

    /// The denomination that a side asks for.
    pub fn ask(&self, side: &Side) -> (r: String)
        ensures
            r@ == self.spec_ask(*side),
    {
        match side {
            Side::Base => self.quote.clone(),
            Side::Quote => self.base.clone(),
        }
    }

    /// The denomination that a side offers.
    pub fn bid(&self, side: &Side) -> (r: String)
        ensures
            r@ == self.spec_bid(*side),
    {
        match side {
            Side::Base => self.base.clone(),
            Side::Quote => self.quote.clone(),
        }
    }

    /// The side of the book that asks for a denomination.
    pub fn ask_side(&self, denom: &String) -> (r: Option<Side>)
        ensures
            r == (if denom@ == self.base@ {
                Some(Side::Quote)
            } else if denom@ == self.quote@ {
                Some(Side::Base)
            } else {
                None
            }),
    {
        if *denom == self.base {
            Some(Side::Quote)
        } else if *denom == self.quote {
            Some(Side::Base)
        } else {
            None
        }
    }

    /// Whether the two denominations differ.
    pub fn validate(&self) -> (r: bool)
        ensures
            r == (self.base@ != self.quote@),
    {
        !(self.base == self.quote)
    }
}

/// What a market maker is asked: the denominations, the lowest price
/// accepted so far, and the cursor that its last answer gave.
#[derive(Clone, Debug, PartialEq)]
pub struct QuoteRequest {
    pub min_price: Option<u128>,
    pub offer_denom: String,
    pub ask_denom: String,
    pub data: Option<Vec<u8>>,
}

/// What a market maker answers: a price, the size it takes at that price,
/// and a cursor for the next question.
#[derive(Clone, Debug, PartialEq)]
pub struct Quote {
    pub price: u128,
    pub size: u128,
    pub data: Option<Vec<u8>>,
}

/// The bytes of a cursor, if there is one.
pub open spec fn cursor_bytes(data: Option<Vec<u8>>) -> Option<Seq<u8>> {
    match data {
        Some(bytes) => Some(bytes@),
        None => None,
    }
}

fn copy_cursor(data: &Option<Vec<u8>>) -> (r: Option<Vec<u8>>)
    ensures
        cursor_bytes(r) == cursor_bytes(*data),
{
    match data {
        Some(bytes) => {
            let copy = bytes.clone();
            assert(copy@ =~= bytes@);
            Some(copy)
        },
        None => None,
    }
}

/// A handle on the querier through which market makers are asked. It holds
/// a `cosmwasm_std::QuerierWrapper`, whose querier is behind a trait object:
/// the handle is opaque.
#[verifier::external_body]
pub struct Quoter<'a> {
    querier: cosmwasm_std::QuerierWrapper<'a>,
}

impl<'a> Quoter<'a> {
    /// Wraps a querier: calls `cosmwasm_std::QuerierWrapper::new`.
    #[verifier::external_body]
    pub fn new<Q: cosmwasm_std::Querier>(querier: &'a Q) -> (r: Self) {
        Quoter { querier: cosmwasm_std::QuerierWrapper::new(querier) }
    }

    /// Calls `cosmwasm_std::QuerierWrapper::query_wasm_smart` with the
    /// request as a `rujira_rs::bow::QueryMsg::Quote`. The answer depends on
    /// the contract asked; a failed query gives nothing.
    #[verifier::external_body]
    pub(crate) fn quote(&self, contract: &String, request: &QuoteRequest) -> (r: Option<Quote>) {
        let msg = rujira_rs::bow::QueryMsg::Quote(rujira_rs::bow::QuoteRequest {
            min_price: request.min_price.map(cosmwasm_std::Decimal::raw),
            offer_denom: request.offer_denom.clone(),
            ask_denom: request.ask_denom.clone(),
            data: request.data.clone().map(cosmwasm_std::Binary::from),
        });
        let res: cosmwasm_std::StdResult<Option<rujira_rs::bow::QuoteResponse>> =
            self.querier.query_wasm_smart(contract.clone(), &msg);
        res.ok().flatten().map(|q| Quote {
            price: q.price.atomics().u128(),
            size: q.size.u128(),
            data: q.data.map(|d| d.to_vec()),
        })
    }
}

/// What a trade used of an offer and what it gave for it.
#[derive(Clone, Copy, Debug, PartialEq, Eq, Structural)]
pub struct Fill {
    pub offer: u128,
    pub bids: u128,
}

/// One quote of a market maker as a level of the book.
#[derive(Clone, Debug, PartialEq)]
pub struct MarketMakerOffer {
    /// The price of the quote, as the market maker gave it.
    pub price: u128,
    /// What is left of the quote's size.
    pub total: u128,
    pub side: Side,
    /// The price as a rate on the level's side, rounded to the tick towards
    /// the less favourable rate.
    pub rate: u128,
    pub contract: String,
    /// What the last trade used of the offer and gave for it.
    pub commitment: Fill,
}

/// What a trade against a market maker commits it to.
#[derive(Clone, Debug, PartialEq)]
pub struct Commitment {
    pub contract: String,
    /// The side of the book on which the market maker's level stood.
    pub side: Side,
    pub amounts: Fill,
}

/// Whether a trade of `offer` against a quote of `total` at `price` takes
/// only a part of the quote.
pub open spec fn takes_part(total: u128, offer: u128, price: u128) -> bool {
    total > value_floor_of(offer as nat, price as nat)
}

/// What a trade of `offer` against a quote of `total` at `price` uses of the
/// offer and gives for it: the whole offer for its value where the quote is
/// worth more; otherwise the whole quote for what it is worth.
pub open spec fn trade_of(total: u128, offer: u128, price: u128) -> (nat, nat) {
    if takes_part(total, offer, price) {
        (offer as nat, value_floor_of(offer as nat, price as nat))
    } else {
        (quotient_floor_of(total as nat, price as nat), total as nat)
    }
}

impl MarketMakerOffer {
    pub fn rate(&self) -> (r: u128)
        ensures
            r == self.rate,
    {
        self.rate
    }

    pub fn total(&self) -> (r: u128)
        ensures
            r == self.total,
    {
        self.total
    }

    /// The price as trades report it: inverted on the base side.
    pub open spec fn shown_price(self) -> Option<u128> {
        match self.side {
            Side::Base => if self.price == 0 {
                None
            } else {
                Some(inverse_of(self.price as nat) as u128)
            },
            Side::Quote => Some(self.price),
        }
    }

    /// The attributes that a trade against the offer reports: the market
    /// maker with the price, and the side. Nothing where the price has no
    /// inverse to show.
    pub fn attributes(&self) -> (r: Option<Vec<Attribute>>)
        ensures
            match self.shown_price() {
                None => r is None,
                Some(shown) => {
                    &&& r matches Some(attrs)
                    &&& attrs.len() == 2
                    &&& attrs[0].key@ == "price"@
                    &&& attrs[0].value@ == self.contract@ + ":"@ + decimal_text(shown)
                    &&& attrs[1].key@ == "side"@
                    &&& attrs[1].value@ == self.side.spec_label()
                },
            },
    {
        let shown: u128 = match self.side {
            Side::Base => match invert(self.price) {
                Some(inverse) => inverse,
                None => {
                    return None;
                },
            },
            Side::Quote => self.price,
        };
        let text = decimal_to_string(shown);
        let value = self.contract.clone().concat(":").concat(text.as_str());
        let mut attrs: Vec<Attribute> = Vec::new();
        attrs.push(Attribute::new("price", value));
        attrs.push(Attribute::new("side", self.side.label()));
        Some(attrs)
    }

    /// Trades an offer against the quote. Where the quote is worth more than
    /// the offer, the whole offer is used and the quote shrinks by its value;
    /// otherwise the whole quote is given for what it is worth. The values
    /// are rounded down, as the market maker rounds them.
    pub fn swap(&mut self, offer: u128) -> (r: Result<(u128, u128), ContractError>)
        ensures
            final(self).price == old(self).price,
            final(self).side == old(self).side,
            final(self).rate == old(self).rate,
            final(self).contract == old(self).contract,
            !value_fits(offer as nat, old(self).price as nat) ==> r matches Err(
                ContractError::Overflow,
            ),
            value_fits(offer as nat, old(self).price as nat) && !quotient_fits(
                old(self).total as nat,
                old(self).price as nat,
            ) ==> r matches Err(ContractError::CheckedFromRatio),
            r is Err ==> *final(self) == *old(self),
            value_fits(offer as nat, old(self).price as nat) && quotient_fits(
                old(self).total as nat,
                old(self).price as nat,
            ) ==> {
                &&& r matches Ok(out)
                &&& (out.0 as nat, out.1 as nat) == trade_of(old(self).total, offer, old(self).price)
                &&& final(self).total == old(self).total - out.1
                &&& final(self).commitment == (Fill { offer: out.0, bids: out.1 })
            },
    {
        let offer_value: u128 = match value_floor(offer, self.price) {
            Some(v) => v,
            None => {
                return Err(ContractError::Overflow);
            },
        };
        let pool_value: u128 = match quotient_floor(self.total, self.price) {
            Some(v) => v,
            None => {
                return Err(ContractError::CheckedFromRatio);
            },
        };
        let res: (u128, u128) = if self.total > offer_value {
            self.total = self.total - offer_value;
            (offer, offer_value)
        } else {
            let size: u128 = self.total;
            self.total = 0;
            (pool_value, size)
        };
        self.commitment = Fill { offer: res.0, bids: res.1 };
        Ok(res)
    }

    /// What the last trade commits the market maker to.
    pub fn commit(&self) -> (r: Commitment)
        ensures
            r.contract@ == self.contract@,
            r.side == self.side,
            r.amounts == self.commitment,
    {
        Commitment { contract: self.contract.clone(), side: self.side, amounts: self.commitment }
    }
}

/// One market maker read as a sequence of levels: each pull asks for one
/// more quote. The reader cannot be restarted.
#[derive(Clone, Debug, PartialEq)]
pub struct MarketMaker {
    pub denoms: Denoms,
    pub side: Side,
    pub contract: String,
    pub tick: Tick,
    /// The value of all quotes read so far.
    pub bid: u128,
    /// The size of all quotes read so far.
    pub ask: u128,
    pub last_price: Option<u128>,
    pub data: Option<Vec<u8>>,
}

/// The rate at which a quote is shown on a side: on the base side the
/// inverse of the price raised to the tick, on the quote side the price cut
/// down to the tick. Nothing where that rate cannot be formed.
pub open spec fn shown_rate(tick: Tick, side: Side, price: u128) -> Option<u128> {
    match side {
        Side::Base => if price != 0 && ceil_defined(tick.size as nat, inverse_of(price as nat)) {
            Some(ceil_to_tick(tick.size as nat, inverse_of(price as nat)) as u128)
        } else {
            None
        },
        Side::Quote => if floor_defined(tick.size as nat, price as nat) {
            Some(floor_to_tick(tick.size as nat, price as nat) as u128)
        } else {
            None
        },
    }
}

/// Whether a reader can take a quote: the running totals stay in range and
/// the quote has a rate to show.
pub open spec fn quote_usable(maker: MarketMaker, quote: Quote) -> bool {
    &&& value_fits(quote.size as nat, quote.price as nat)
    &&& maker.bid + value_ceil_of(quote.size as nat, quote.price as nat) <= u128::MAX
    &&& maker.ask + quote.size <= u128::MAX
    &&& shown_rate(maker.tick, maker.side, quote.price) is Some
}

/// What a reader makes of an answer: a usable quote becomes the next level,
/// at the rate shown on the reader's side, and moves the running totals, the
/// last price and the cursor; no answer, or an unusable one, gives nothing
/// and leaves the reader as it was.
pub open spec fn accepted(before: MarketMaker, answer: Option<Quote>, after: MarketMaker, r: Option<MarketMakerOffer>) -> bool {
    &&& after.denoms == before.denoms
    &&& after.side == before.side
    &&& after.contract == before.contract
    &&& after.tick == before.tick
    &&& match answer {
        Some(quote) => if quote_usable(before, quote) {
            &&& r matches Some(offer)
            &&& offer.price == quote.price
            &&& offer.total == quote.size
            &&& offer.side == before.side
            &&& Some(offer.rate) == shown_rate(before.tick, before.side, quote.price)
            &&& offer.contract@ == before.contract@
            &&& offer.commitment == (Fill { offer: 0, bids: 0 })
            &&& after.bid == before.bid + value_ceil_of(quote.size as nat, quote.price as nat)
            &&& after.ask == before.ask + quote.size
            &&& after.last_price == Some(quote.price)
            &&& after.data == quote.data
        } else {
            r is None && after == before
        },
        None => r is None && after == before,
    }
}

impl MarketMaker {
    pub fn new(denoms: Denoms, side: Side, contract: String, tick: Tick) -> (r: Self)
        ensures
            r.denoms == denoms,
            r.side == side,
            r.contract == contract,
            r.tick == tick,
            r.bid == 0,
            r.ask == 0,
            r.last_price is None,
            r.data is None,
    {
        Self { denoms, side, contract, tick, bid: 0, ask: 0, last_price: None, data: None }
    }

    /// The next question to the market maker: what the book's side offers is
    /// asked for, what it asks is offered, with the last price as the lowest
    /// acceptable one and the last cursor.
    pub fn request(&self) -> (r: QuoteRequest)
        ensures
            r.min_price == self.last_price,
            r.ask_denom@ == self.denoms.spec_bid(self.side),
            r.offer_denom@ == self.denoms.spec_ask(self.side),
            cursor_bytes(r.data) == cursor_bytes(self.data),
    {
        QuoteRequest {
            min_price: self.last_price,
            ask_denom: self.denoms.bid(&self.side),
            offer_denom: self.denoms.ask(&self.side),
            data: copy_cursor(&self.data),
        }
    }

    /// Takes the answer to a question: a usable quote becomes the next level
    /// and moves the running totals, the last price and the cursor; no
    /// answer, or an unusable one, ends the sequence and changes nothing.
    pub fn accept(&mut self, answer: Option<Quote>) -> (r: Option<MarketMakerOffer>)
        ensures
            accepted(*old(self), answer, *final(self), r),
    {
        let quote = match answer {
            Some(quote) => quote,
            None => {
                return None;
            },
        };
        let value: u128 = match value_ceil(quote.size, quote.price) {
            Some(v) => v,
            None => {
                return None;
            },
        };
        if value > u128::MAX - self.bid || quote.size > u128::MAX - self.ask {
            return None;
        }
        let rate: u128 = match self.side {
            Side::Base => match invert(quote.price) {
                None => {
                    return None;
                },
                Some(inverse) => match self.tick.truncate_ceil(inverse) {
                    Some(rate) => rate,
                    None => {
                        return None;
                    },
                },
            },
            Side::Quote => match self.tick.truncate_floor(quote.price) {
                Some(rate) => rate,
                None => {
                    return None;
                },
            },
        };
        self.bid = self.bid + value;
        self.ask = self.ask + quote.size;
        self.data = quote.data;
        self.last_price = Some(quote.price);
        Some(
            MarketMakerOffer {
                contract: self.contract.clone(),
                price: quote.price,
                rate,
                total: quote.size,
                side: self.side,
                commitment: Fill { offer: 0, bids: 0 },
            },
        )
    }

    /// Pulls the next level: asks the market maker with `request` and takes
    /// its answer with `accept`. The answer is the market maker's; a query
    /// that fails counts as none.
    pub fn next(&mut self, quoter: &Quoter) -> (r: Option<MarketMakerOffer>)
        ensures
            exists|answer: Option<Quote>| #[trigger] accepted(*old(self), answer, *final(self), r),
            final(self).denoms == old(self).denoms,
            final(self).side == old(self).side,
            final(self).contract == old(self).contract,
            final(self).tick == old(self).tick,
            r matches Some(offer) ==> {
                &&& offer.side == old(self).side
                &&& offer.contract@ == old(self).contract@
                &&& Some(offer.rate) == shown_rate(old(self).tick, old(self).side, offer.price)
                &&& final(self).last_price == Some(offer.price)
                &&& final(self).ask == old(self).ask + offer.total
            },
            r is None ==> *final(self) == *old(self),
    {
        let request = self.request();
        let answer = quoter.quote(&self.contract, &request);
        self.accept(answer)
    }
}

} // verus!
