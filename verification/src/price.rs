//! Sides, prices and the keys under which price levels are stored.
use crate::events::decimal_text;
use crate::events::decimal_to_string;
use crate::events::number_text;
use crate::events::number_to_string;
use crate::math::decimal_mul;
use crate::math::product_of;
use vstd::prelude::*;

verus! {

/// The asset that a price level offers.
#[derive(Clone, Copy, Debug, PartialEq, Eq, Structural)]
pub enum Side {
    Base,
    Quote,
}

/// A price: an absolute ratio in atomic units, or an offset from the oracle
/// price in basis points.
#[derive(Clone, Copy, Debug, PartialEq, Eq, Structural)]
pub enum Price {
    Fixed(u128),
    Oracle(i16),
}

/// Which family of price a book level belongs to.
#[derive(Clone, Copy, Debug, PartialEq, Eq, Structural)]
pub enum PoolType {
    Fixed,
    Oracle,
}

/// The key of one price level: a side and a price.
#[derive(Clone, Copy, Debug, PartialEq, Eq, Structural)]
pub struct PoolKey {
    pub side: Side,
    pub price: Price,
}

/// Atomic units of one basis point.
pub const BASIS_POINT: u128 = 100_000_000_000_000;

/// The factor by which an offset of `bps` basis points scales the oracle price.
pub open spec fn premium_factor(bps: int) -> nat {
    ((10000 + bps) * (BASIS_POINT as int)) as nat
}

/// The oracle price moved by `bps` basis points, rounded down.
pub open spec fn adjusted_of(oracle: nat, bps: int) -> nat {
    product_of(oracle, premium_factor(bps))
}

/// Whether an oracle price can be moved by `bps` basis points within 128 bits.
pub open spec fn adjustable(oracle: nat, bps: int) -> bool {
    bps >= -10000 && adjusted_of(oracle, bps) <= u128::MAX
}

/// Calls `rujira_rs::Premiumable::adjust` on a `cosmwasm_std::Decimal`: the
/// oracle price scaled by `(10000 + bps) / 10000`, rounded down to atomic
/// units. The outside function fails below -10000 basis points and when the
/// product leaves 128 bits.
#[verifier::external_body]
pub(crate) fn oracle_adjust(oracle: u128, bps: i16) -> (r: u128)
    requires
        adjustable(oracle as nat, bps as int),
    ensures
        r == adjusted_of(oracle as nat, bps as int),
{
    rujira_rs::Premiumable::adjust(&cosmwasm_std::Decimal::raw(oracle), &bps).atomics().u128()
}

/// The text of a whole number with its sign: a minus before the digits of a
/// number below zero.
pub open spec fn signed_text(n: int) -> Seq<char> {
    if n < 0 {
        "-"@ + number_text((-n) as nat)
    } else {
        number_text(n as nat)
    }
}

/// The text of a price in events: `fixed:` and the ratio as a decimal, or
/// `oracle:` and the deviation in basis points.
pub open spec fn price_text(price: Price) -> Seq<char> {
    match price {
        Price::Fixed(v) => "fixed:"@ + decimal_text(v),
        Price::Oracle(bps) => "oracle:"@ + signed_text(bps as int),
    }
}

impl Side {
    pub open spec fn spec_other(self) -> Side {
        match self {
            Side::Base => Side::Quote,
            Side::Quote => Side::Base,
        }
    }

    /// The opposite side.
    pub fn other(&self) -> (r: Side)
        ensures
            r == self.spec_other(),
    {
        match self {
            Side::Base => Side::Quote,
            Side::Quote => Side::Base,
        }
    }

    pub open spec fn spec_key_byte(self) -> u8 {
        match self {
            Side::Base => 0u8,
            Side::Quote => 1u8,
        }
    }

    /// The byte that stands for the side in a key.
    pub fn key_byte(&self) -> (r: u8)
        ensures
            r == self.spec_key_byte(),
    {
        match self {
            Side::Base => 0u8,
            Side::Quote => 1u8,
        }
    }

    pub open spec fn spec_label(self) -> Seq<char> {
        match self {
            Side::Base => "base"@,
            Side::Quote => "quote"@,
        }
    }

    /// The side's name in events: `base` or `quote`.
    pub fn label(&self) -> (r: String)
        ensures
            r@ == self.spec_label(),
    {
        match self {
            Side::Base => "base".to_owned(),
            Side::Quote => "quote".to_owned(),
        }
    }
}

impl PoolType {
    pub open spec fn spec_key_byte(self) -> u8 {
        match self {
            PoolType::Fixed => 0u8,
            PoolType::Oracle => 1u8,
        }
    }

    /// The byte that stands for the family in a key.
    pub fn key_byte(&self) -> (r: u8)
        ensures
            r == self.spec_key_byte(),
    {
        match self {
            PoolType::Fixed => 0u8,
            PoolType::Oracle => 1u8,
        }
    }

    /// The family that a key byte stands for.
    pub fn from_byte(byte: u8) -> (r: Option<PoolType>)
        ensures
            r == (if byte == 0 {
                Some(PoolType::Fixed)
            } else if byte == 1 {
                Some(PoolType::Oracle)
            } else {
                None
            }),
    {
        if byte == 0 {
            Some(PoolType::Fixed)
        } else if byte == 1 {
            Some(PoolType::Oracle)
        } else {
            None
        }
    }
}

/// The `n` low bytes of `v`, most significant first.
pub open spec fn be_bytes(v: nat, n: nat) -> Seq<u8>
    decreases n,
{
    if n == 0 {
        Seq::empty()
    } else {
        be_bytes(v / 256, (n - 1) as nat).push((v % 256) as u8)
    }
}

/// The number that bytes spell, most significant first.
pub open spec fn be_value(s: Seq<u8>) -> nat
    decreases s.len(),
{
    if s.len() == 0 {
        0
    } else {
        be_value(s.drop_last()) * 256 + s.last() as nat
    }
}

/// `256` to the power `n`.
pub open spec fn pow256(n: nat) -> nat
    decreases n,
{
    if n == 0 {
        1
    } else {
        256 * pow256((n - 1) as nat)
    }
}

pub proof fn lemma_be_bytes_len(v: nat, n: nat)
    ensures
        be_bytes(v, n).len() == n,
    decreases n,
{
    if n > 0 {
        lemma_be_bytes_len(v / 256, (n - 1) as nat);
    }
}

/// Bytes written for a number that fits them spell that number again.
pub proof fn lemma_be_round_trip(v: nat, n: nat)
    requires
        v < pow256(n),
    ensures
        be_value(be_bytes(v, n)) == v,
    decreases n,
{
    if n > 0 {
        let rest = be_bytes(v / 256, (n - 1) as nat);
        assert(v / 256 < pow256((n - 1) as nat)) by (nonlinear_arith)
            requires
                v < 256 * pow256((n - 1) as nat),
        ;
        lemma_be_round_trip(v / 256, (n - 1) as nat);
        assert(be_bytes(v, n).drop_last() =~= rest);
        assert(v == (v / 256) * 256 + v % 256) by (nonlinear_arith);
    }
}

pub proof fn lemma_be_value_bound(s: Seq<u8>)
    ensures
        be_value(s) < pow256(s.len()),
    decreases s.len(),
{
    if s.len() > 0 {
        lemma_be_value_bound(s.drop_last());
        assert(be_value(s.drop_last()) * 256 + 255 < 256 * pow256((s.len() - 1) as nat))
            by (nonlinear_arith)
            requires
                be_value(s.drop_last()) < pow256((s.len() - 1) as nat),
        ;
    }
}

pub proof fn lemma_pow256_values()
    ensures
        pow256(2) == 65536,
        pow256(16) == 0x1_0000_0000_0000_0000_0000_0000_0000_0000,
{
    reveal_with_fuel(pow256, 17);
}

/// Writes the `n` low bytes of `v`, most significant first.
pub fn be_encode(v: u128, n: usize) -> (r: Vec<u8>)
    ensures
        r@ == be_bytes(v as nat, n as nat),
    decreases n,
{
    if n == 0 {
        Vec::new()
    } else {
        let mut r = be_encode(v / 256, n - 1);
        r.push((v % 256) as u8);
        r
    }
}

/// Reads the number spelt by the bytes of `s` from `from` up to `to`.
pub fn be_decode(s: &Vec<u8>, from: usize, to: usize) -> (r: u128)
    requires
        from <= to <= s.len(),
        to - from <= 16,
    ensures
        r == be_value(s@.subrange(from as int, to as int)),
    decreases to - from,
{
    if from == to {
        assert(s@.subrange(from as int, to as int).len() == 0);
        0
    } else {
        let hi = be_decode(s, from, to - 1);
        proof {
            let whole = s@.subrange(from as int, to as int);
            let front = s@.subrange(from as int, to - 1);
            assert(whole.drop_last() =~= front);
            assert(whole.last() == s@[to - 1]);
            lemma_be_value_bound(front);
            lemma_be_value_bound(whole);
            lemma_pow256_bound((to - from) as nat);
        }
        hi * 256 + (s[to - 1] as u128)
    }
}

proof fn lemma_pow256_bound(n: nat)
    requires
        n <= 16,
    ensures
        pow256(n) <= 0x1_0000_0000_0000_0000_0000_0000_0000_0000,
    decreases 16 - n,
{
    if n < 16 {
        lemma_pow256_bound(n + 1);
        assert(pow256(n + 1) == 256 * pow256(n));
    } else {
        lemma_pow256_values();
    }
}

impl Price {
    pub open spec fn spec_pool_type(self) -> PoolType {
        match self {
            Price::Fixed(_) => PoolType::Fixed,
            Price::Oracle(_) => PoolType::Oracle,
        }
    }

    /// The family of the price.
    pub fn pool_type(&self) -> (r: PoolType)
        ensures
            r == self.spec_pool_type(),
    {
        match self {
            Price::Fixed(_) => PoolType::Fixed,
            Price::Oracle(_) => PoolType::Oracle,
        }
    }

    /// The rate of the price under an oracle reading, where it has one: a
    /// fixed price is its own rate; an offset needs a reading that it can
    /// move within 128 bits.
    pub open spec fn spec_rate(self, oracle: Option<u128>) -> Option<u128> {
        match self {
            Price::Fixed(v) => Some(v),
            Price::Oracle(bps) => match oracle {
                Some(o) => if adjustable(o as nat, bps as int) {
                    Some(adjusted_of(o as nat, bps as int) as u128)
                } else {
                    None
                },
                None => None,
            },
        }
    }

    /// Converts the price to a rate under the current oracle reading.
    pub fn to_rate(&self, oracle: Option<u128>) -> (r: Option<u128>)
        ensures
            r == self.spec_rate(oracle),
    {
        match self {
            Price::Fixed(v) => Some(*v),
            Price::Oracle(bps) => match oracle {
                None => None,
                Some(o) => {
                    if *bps < -10000 {
                        None
                    } else {
                        let factor: u128 = ((10000i32 + *bps as i32) as u128) * BASIS_POINT;
                        match decimal_mul(o, factor) {
                            None => None,
                            Some(_) => Some(oracle_adjust(o, *bps)),
                        }
                    }
                },
            },
        }
    }

    /// The bytes of the price in a key: a fixed price as sixteen bytes, an
    /// offset as two bytes with its sign bit flipped, each most significant
    /// byte first.
    pub open spec fn spec_key_bytes(self) -> Seq<u8> {
        match self {
            Price::Fixed(v) => be_bytes(v as nat, 16),
            Price::Oracle(bps) => be_bytes((bps + 32768) as nat, 2),
        }
    }

    /// The price that key bytes spell: sixteen bytes a fixed price, two an offset.
    pub open spec fn spec_from_key_bytes(s: Seq<u8>) -> Option<Price> {
        if s.len() == 16 {
            Some(Price::Fixed(be_value(s) as u128))
        } else if s.len() == 2 {
            Some(Price::Oracle((be_value(s) - 32768) as i16))
        } else {
            None
        }
    }

    /// Writes the price as key bytes.
    pub fn key_bytes(&self) -> (r: Vec<u8>)
        ensures
            r@ == self.spec_key_bytes(),
    {
        match self {
            Price::Fixed(v) => be_encode(*v, 16),
            Price::Oracle(bps) => be_encode((*bps as i32 + 32768) as u128, 2),
        }
    }

    /// Reads a price from the key bytes of `s` from `from` on.
    pub fn from_key_bytes(s: &Vec<u8>, from: usize) -> (r: Option<Price>)
        requires
            from <= s.len(),
        ensures
            r == Price::spec_from_key_bytes(s@.subrange(from as int, s.len() as int)),
    {
        let n: usize = s.len() - from;
        proof {
            lemma_be_value_bound(s@.subrange(from as int, s.len() as int));
            lemma_pow256_values();
        }
        if n == 16 {
            Some(Price::Fixed(be_decode(s, from, s.len())))
        } else if n == 2 {
            let v: u128 = be_decode(s, from, s.len());
            Some(Price::Oracle((v as i32 - 32768) as i16))
        } else {
            None
        }
    }

    /// The price's text in events.
    pub fn label(&self) -> (r: String)
        ensures
            r@ == price_text(*self),
    {
        match self {
            Price::Fixed(v) => {
                let text = decimal_to_string(*v);
                String::from_str("fixed:").concat(text.as_str())
            },
            Price::Oracle(bps) => {
                let head = String::from_str("oracle:");
                if *bps < 0 {
                    let size: u128 = (-(*bps as i32)) as u128;
                    let digits = number_to_string(size);
                    let signed = String::from_str("-").concat(digits.as_str());
                    head.concat(signed.as_str())
                } else {
                    let digits = number_to_string(*bps as u128);
                    head.concat(digits.as_str())
                }
            },
        }
    }
}

/// Key bytes of a price spell that price again.
pub proof fn lemma_price_key_round_trip(price: Price)
    ensures
        Price::spec_from_key_bytes(price.spec_key_bytes()) == Some(price),
{
    lemma_pow256_values();
    match price {
        Price::Fixed(v) => {
            lemma_be_bytes_len(v as nat, 16);
            lemma_be_round_trip(v as nat, 16);
        },
        Price::Oracle(bps) => {
            lemma_be_bytes_len((bps + 32768) as nat, 2);
            lemma_be_round_trip((bps + 32768) as nat, 2);
        },
    }
}

impl PoolKey {
    pub fn new(side: Side, price: Price) -> (r: Self)
        ensures
            r == (PoolKey { side, price }),
    {
        Self { side, price }
    }

    /// The three parts of the key: side, family, price.
    pub open spec fn spec_key(self) -> Seq<Seq<u8>> {
        seq![
            seq![self.side.spec_key_byte()],
            seq![self.price.spec_pool_type().spec_key_byte()],
            self.price.spec_key_bytes(),
        ]
    }

    /// The key as one run of bytes: side and family each behind their length
    /// in two bytes, then the price.
    pub open spec fn spec_joined_key(self) -> Seq<u8> {
        seq![0u8, 1u8, self.side.spec_key_byte(), 0u8, 1u8, self.price.spec_pool_type().spec_key_byte()]
            + self.price.spec_key_bytes()
    }

    /// The key that a run of bytes spells: the side from its third byte, the
    /// price from the seventh byte on.
    pub open spec fn spec_from_bytes(s: Seq<u8>) -> Option<PoolKey> {
        if s.len() < 6 {
            None
        } else if s[2] > 1 {
            None
        } else {
            match Price::spec_from_key_bytes(s.subrange(6, s.len() as int)) {
                Some(price) => Some(
                    PoolKey { side: if s[2] == 0 { Side::Base } else { Side::Quote }, price },
                ),
                None => None,
            }
        }
    }

    /// Writes the three parts of the key.
    pub fn key(&self) -> (r: Vec<Vec<u8>>)
        ensures
            r.deep_view() == self.spec_key(),
    {
        let mut side: Vec<u8> = Vec::new();
        side.push(self.side.key_byte());
        let mut family: Vec<u8> = Vec::new();
        family.push(self.price.pool_type().key_byte());
        let price = self.price.key_bytes();
        let mut r: Vec<Vec<u8>> = Vec::new();
        r.push(side);
        r.push(family);
        r.push(price);
        proof {
            assert(r.deep_view().len() == 3);
            assert(r.deep_view()[0] =~= seq![self.side.spec_key_byte()]);
            assert(r.deep_view()[1] =~= seq![self.price.spec_pool_type().spec_key_byte()]);
            assert(r.deep_view()[2] =~= self.price.spec_key_bytes());
            assert(r.deep_view() =~= self.spec_key());
        }
        r
    }

    /// Writes the key as one run of bytes.
    pub fn joined_key(&self) -> (r: Vec<u8>)
        ensures
            r@ == self.spec_joined_key(),
    {
        let mut r: Vec<u8> = Vec::new();
        r.push(0u8);
        r.push(1u8);
        r.push(self.side.key_byte());
        r.push(0u8);
        r.push(1u8);
        r.push(self.price.pool_type().key_byte());
        let mut price = self.price.key_bytes();
        r.append(&mut price);
        proof {
            assert(r@ =~= self.spec_joined_key());
        }
        r
    }

    /// Reads a key from one run of bytes; nothing where the bytes spell none.
    pub fn from_vec(value: Vec<u8>) -> (r: Option<PoolKey>)
        ensures
            r == PoolKey::spec_from_bytes(value@),
    {
        if value.len() < 6 {
            return None;
        }
        let side_byte: u8 = value[2];
        if side_byte > 1 {
            return None;
        }
        let side = if side_byte == 0 {
            Side::Base
        } else {
            Side::Quote
        };
        match Price::from_key_bytes(&value, 6) {
            Some(price) => Some(PoolKey { side, price }),
            None => None,
        }
    }
}

/// A key written as one run of bytes is read back as the same key.
pub proof fn lemma_key_round_trip(key: PoolKey)
    ensures
        PoolKey::spec_from_bytes(key.spec_joined_key()) == Some(key),
{
    let s = key.spec_joined_key();
    let head = seq![
        0u8,
        1u8,
        key.side.spec_key_byte(),
        0u8,
        1u8,
        key.price.spec_pool_type().spec_key_byte(),
    ];
    assert(head.len() == 6);
    assert(s.subrange(6, s.len() as int) =~= key.price.spec_key_bytes());
    assert(s[2] == head[2]);
    lemma_price_key_round_trip(key.price);
}

/// Byte strings in dictionary order.
pub open spec fn bytes_lt(a: Seq<u8>, b: Seq<u8>) -> bool {
    exists|k: int|
        0 <= k <= a.len() && k < b.len() && #[trigger] a.take(k) == b.take(k) && (k == a.len()
            || a[k] < b[k])
}

/// Of two byte strings of one length, the one that comes first in dictionary
/// order spells the smaller number.
pub proof fn lemma_bytes_lt_value(a: Seq<u8>, b: Seq<u8>)
    requires
        a.len() == b.len(),
        bytes_lt(a, b),
    ensures
        be_value(a) < be_value(b),
    decreases a.len(),
{
    let k = choose|k: int|
        0 <= k <= a.len() && k < b.len() && #[trigger] a.take(k) == b.take(k) && (k == a.len()
            || a[k] < b[k]);
    let n = a.len() as int;
    if k == n - 1 {
        assert(a.drop_last() =~= a.take(k));
        assert(b.drop_last() =~= b.take(k));
    } else {
        let fa = a.drop_last();
        let fb = b.drop_last();
        assert(fa.take(k) =~= a.take(k));
        assert(fb.take(k) =~= b.take(k));
        assert(fa[k] == a[k] && fb[k] == b[k]);
        assert(bytes_lt(fa, fb));
        lemma_bytes_lt_value(fa, fb);
    }
}

/// A number read from bytes is written as those bytes again.
pub proof fn lemma_be_bytes_of_value(s: Seq<u8>)
    ensures
        be_bytes(be_value(s), s.len()) == s,
    decreases s.len(),
{
    if s.len() > 0 {
        let front = s.drop_last();
        lemma_be_bytes_of_value(front);
        let v = be_value(s);
        assert(v / 256 == be_value(front) && v % 256 == s.last() as nat) by (nonlinear_arith)
            requires
                v == be_value(front) * 256 + s.last() as nat,
                (s.last() as nat) < 256,
        ;
        assert(be_bytes(v, s.len()) =~= s);
    } else {
        assert(be_bytes(be_value(s), s.len()) =~= s);
    }
}

/// A price read from key bytes is written as those bytes again.
pub proof fn lemma_price_bytes_round_trip(s: Seq<u8>)
    requires
        Price::spec_from_key_bytes(s) is Some,
    ensures
        Price::spec_from_key_bytes(s).unwrap().spec_key_bytes() == s,
{
    lemma_be_bytes_of_value(s);
    lemma_be_value_bound(s);
    lemma_pow256_values();
}

/// The order of two prices of one family: by value, or by offset.
pub open spec fn price_lt(a: Price, b: Price) -> bool {
    match (a, b) {
        (Price::Fixed(x), Price::Fixed(y)) => x < y,
        (Price::Oracle(x), Price::Oracle(y)) => x < y,
        _ => false,
    }
}

/// Within one family, the dictionary order of the key bytes is the order of
/// the prices.
pub proof fn lemma_key_order(a: Price, b: Price)
    requires
        a.spec_pool_type() == b.spec_pool_type(),
        bytes_lt(a.spec_key_bytes(), b.spec_key_bytes()),
    ensures
        price_lt(a, b),
{
    lemma_pow256_values();
    match (a, b) {
        (Price::Fixed(x), Price::Fixed(y)) => {
            lemma_be_bytes_len(x as nat, 16);
            lemma_be_bytes_len(y as nat, 16);
            lemma_bytes_lt_value(a.spec_key_bytes(), b.spec_key_bytes());
            lemma_be_round_trip(x as nat, 16);
            lemma_be_round_trip(y as nat, 16);
        },
        (Price::Oracle(x), Price::Oracle(y)) => {
            lemma_be_bytes_len((x + 32768) as nat, 2);
            lemma_be_bytes_len((y + 32768) as nat, 2);
            lemma_bytes_lt_value(a.spec_key_bytes(), b.spec_key_bytes());
            lemma_be_round_trip((x + 32768) as nat, 2);
            lemma_be_round_trip((y + 32768) as nat, 2);
        },
        _ => {},
    }
}

/// Under one oracle reading, the lower price of a family has the lower rate,
/// or the same.
pub proof fn lemma_rate_monotone(a: Price, b: Price, oracle: Option<u128>)
    requires
        price_lt(a, b),
        a.spec_rate(oracle) is Some,
        b.spec_rate(oracle) is Some,
    ensures
        a.spec_rate(oracle).unwrap() <= b.spec_rate(oracle).unwrap(),
{
    match (a, b) {
        (Price::Oracle(x), Price::Oracle(y)) => {
            let o = oracle.unwrap() as nat;
            let fx = premium_factor(x as int);
            let fy = premium_factor(y as int);
            assert(fx <= fy) by (nonlinear_arith)
                requires
                    fx == ((10000 + x) * 100_000_000_000_000) as nat,
                    fy == ((10000 + y) * 100_000_000_000_000) as nat,
                    x < y,
                    x >= -10000,
            ;
            assert(o * fx / 1_000_000_000_000_000_000 <= o * fy / 1_000_000_000_000_000_000)
                by (nonlinear_arith)
                requires
                    fx <= fy,
            ;
        },
        _ => {},
    }
}

} // verus!
