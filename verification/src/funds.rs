//! Coins and balances.
//!
//! A balance holds at most one coin of a denomination. Its arithmetic is that
//! of `cw_utils::NativeBalance`; what each operation does is stated over the
//! amount held of each denomination.
use vstd::prelude::*;

verus! {

/// An amount of one denomination.
#[derive(Clone, Debug, PartialEq)]
pub struct Coin {
    pub denom: String,
    pub amount: u128,
}

/// A list of coins with no denomination twice.
#[derive(Clone, Debug, PartialEq)]
pub struct Balance {
    pub coins: Vec<Coin>,
}

/// Whether a list of coins has an entry of a denomination.
pub open spec fn has_denom(coins: Seq<Coin>, denom: Seq<char>) -> bool {
    exists|i: int| 0 <= i < coins.len() && (#[trigger] coins[i]).denom@ == denom
}

/// The amount that a list of coins holds of a denomination: that of its
/// first entry of the denomination, or nothing.
pub open spec fn amount_of(coins: Seq<Coin>, denom: Seq<char>) -> nat
    decreases coins.len(),
{
    if coins.len() == 0 {
        0
    } else if coins[0].denom@ == denom {
        coins[0].amount as nat
    } else {
        amount_of(coins.drop_first(), denom)
    }
}

/// Whether no denomination stands twice in a list of coins.
pub open spec fn distinct_denoms(coins: Seq<Coin>) -> bool {
    forall|i: int, j: int|
        0 <= i < j < coins.len() ==> (#[trigger] coins[i]).denom@ != (#[trigger] coins[j]).denom@
}

/// Texts in dictionary order of their characters.
pub open spec fn text_lt(a: Seq<char>, b: Seq<char>) -> bool {
    exists|k: int|
        0 <= k <= a.len() && k < b.len() && #[trigger] a.take(k) == b.take(k) && (k == a.len()
            || (a[k] as int) < (b[k] as int))
}

/// Whether a list of coins is in its normal form: by rising denomination,
/// with no empty coin.
pub open spec fn normal(coins: Seq<Coin>) -> bool {
    &&& forall|i: int, j: int|
        0 <= i < j < coins.len() ==> text_lt((#[trigger] coins[i]).denom@, (#[trigger] coins[j]).denom@)
    &&& forall|i: int| 0 <= i < coins.len() ==> (#[trigger] coins[i]).amount != 0
}

/// Calls `+=` of a `cw_utils::NativeBalance` with a coin: the amount is added
/// to the entry of the denomination, or a new entry is made for it. The
/// outside function fails where the sum leaves 128 bits.
#[verifier::external_body]
pub(crate) fn coins_add(coins: Vec<Coin>, denom: &String, amount: u128) -> (r: Vec<Coin>)
    requires
        distinct_denoms(coins@),
        amount_of(coins@, denom@) + amount <= u128::MAX,
    ensures
        distinct_denoms(r@),
        has_denom(r@, denom@),
        amount_of(r@, denom@) == amount_of(coins@, denom@) + amount,
        forall|d: Seq<char>| d != denom@ ==> #[trigger] has_denom(r@, d) == has_denom(coins@, d),
        forall|d: Seq<char>| d != denom@ ==> #[trigger] amount_of(r@, d) == amount_of(coins@, d),
{
    let mut balance = cw_utils::NativeBalance(
        coins.into_iter().map(|c| cosmwasm_std::coin(c.amount, c.denom)).collect(),
    );
    balance += cosmwasm_std::coin(amount, denom.clone());
    balance.into_vec().into_iter().map(|c| Coin { denom: c.denom, amount: c.amount.u128() }).collect()
}

/// Calls `-` of a `cw_utils::NativeBalance` with a coin: the amount is taken
/// from the entry of the denomination, and an entry that is emptied is
/// removed. Refused where there is no such entry or it holds less.
#[verifier::external_body]
pub(crate) fn coins_sub(coins: Vec<Coin>, denom: &String, amount: u128) -> (r: Option<Vec<Coin>>)
    requires
        distinct_denoms(coins@),
    ensures
        r is Some <==> (has_denom(coins@, denom@) && amount <= amount_of(coins@, denom@)),
        r matches Some(left) ==> {
            &&& distinct_denoms(left@)
            &&& amount_of(left@, denom@) == amount_of(coins@, denom@) - amount
            &&& has_denom(left@, denom@) == (amount_of(coins@, denom@) != amount)
            &&& forall|d: Seq<char>| d != denom@ ==> #[trigger] has_denom(left@, d) == has_denom(coins@, d)
            &&& forall|d: Seq<char>| d != denom@ ==> #[trigger] amount_of(left@, d) == amount_of(coins@, d)
        },
{
    let balance = cw_utils::NativeBalance(
        coins.into_iter().map(|c| cosmwasm_std::coin(c.amount, c.denom)).collect(),
    );
    match balance - cosmwasm_std::coin(amount, denom.clone()) {
        Ok(left) => Some(
            left.into_vec().into_iter().map(|c| Coin { denom: c.denom, amount: c.amount.u128() }).collect(),
        ),
        Err(_) => None,
    }
}

/// Calls `cw_utils::NativeBalance::normalize`: the coins by rising
/// denomination, without empty ones; the amount held of each denomination
/// is kept.
#[verifier::external_body]
pub(crate) fn coins_normalize(coins: Vec<Coin>) -> (r: Vec<Coin>)
    requires
        distinct_denoms(coins@),
    ensures
        normal(r@),
        distinct_denoms(r@),
        forall|d: Seq<char>| #[trigger] amount_of(r@, d) == amount_of(coins@, d),
        forall|d: Seq<char>| #[trigger] has_denom(r@, d) == (amount_of(coins@, d) != 0),
{
    let mut balance = cw_utils::NativeBalance(
        coins.into_iter().map(|c| cosmwasm_std::coin(c.amount, c.denom)).collect(),
    );
    balance.normalize();
    balance.into_vec().into_iter().map(|c| Coin { denom: c.denom, amount: c.amount.u128() }).collect()
}

/// Calls `cw_utils::one_coin` on the funds of a message: the coin where
/// exactly one was sent and it is not empty.
#[verifier::external_body]
pub(crate) fn coins_one(funds: &Vec<Coin>) -> (r: Option<Coin>)
    ensures
        r.is_some() == (funds.len() == 1 && funds[0].amount != 0),
        r matches Some(coin) ==> coin.denom@ == funds[0].denom@ && coin.amount == funds[0].amount,
{
    let info = cosmwasm_std::MessageInfo {
        sender: cosmwasm_std::Addr::unchecked(""),
        funds: funds.iter().map(|c| cosmwasm_std::coin(c.amount, c.denom.clone())).collect(),
    };
    match cw_utils::one_coin(&info) {
        Ok(c) => Some(Coin { denom: c.denom, amount: c.amount.u128() }),
        Err(_) => None,
    }
}

/// Whether no coin of a list holds anything.
pub open spec fn nothing_in(coins: Seq<Coin>) -> bool {
    forall|i: int| 0 <= i < coins.len() ==> (#[trigger] coins[i]).amount == 0
}

/// In a list of coins without a denomination twice, every coin holds what
/// the list holds of its denomination.
pub proof fn lemma_amount_at(coins: Seq<Coin>, j: int)
    requires
        distinct_denoms(coins),
        0 <= j < coins.len(),
    ensures
        amount_of(coins, coins[j].denom@) == coins[j].amount,
    decreases coins.len(),
{
    if j > 0 {
        let rest = coins.drop_first();
        assert(coins[0].denom@ != coins[j].denom@);
        assert forall|a: int, b: int| 0 <= a < b < rest.len() implies (#[trigger] rest[a]).denom@ != (#[trigger] rest[b]).denom@ by {
            assert(rest[a] == coins[a + 1] && rest[b] == coins[b + 1]);
        }
        assert(rest[j - 1] == coins[j]);
        lemma_amount_at(rest, j - 1);
    }
}

/// A list of coins holds nothing of a denomination of which it has no entry.
pub proof fn lemma_amount_absent(coins: Seq<Coin>, denom: Seq<char>)
    requires
        !has_denom(coins, denom),
    ensures
        amount_of(coins, denom) == 0,
    decreases coins.len(),
{
    if coins.len() > 0 {
        let rest = coins.drop_first();
        assert(coins[0].denom@ != denom);
        assert forall|i: int| 0 <= i < rest.len() implies (#[trigger] rest[i]).denom@ != denom by {
            assert(rest[i] == coins[i + 1]);
        }
        lemma_amount_absent(rest, denom);
    }
}

/// A list of coins in normal form holds nothing exactly if it has no coin.
pub proof fn lemma_normal_empty(coins: Seq<Coin>)
    requires
        normal(coins),
        distinct_denoms(coins),
    ensures
        nothing_in(coins) <==> coins.len() == 0,
        coins.len() == 0 <==> (forall|d: Seq<char>| #[trigger] amount_of(coins, d) == 0),
{
    if coins.len() > 0 {
        assert(coins[0].amount != 0);
        lemma_amount_at(coins, 0);
        assert(amount_of(coins, coins[0].denom@) != 0);
    }
}

/// What a list of coins holds of a denomination in all: the amounts of its
/// entries of the denomination, added up.
pub open spec fn sum_of(coins: Seq<Coin>, denom: Seq<char>) -> nat
    decreases coins.len(),
{
    if coins.len() == 0 {
        0
    } else {
        sum_of(coins.drop_last(), denom) + (if coins.last().denom@ == denom {
            coins.last().amount as nat
        } else {
            0
        })
    }
}

/// What a list of coins holds of a denomination fits in 128 bits.
pub proof fn lemma_amount_fits(coins: Seq<Coin>, denom: Seq<char>)
    ensures
        amount_of(coins, denom) <= u128::MAX,
    decreases coins.len(),
{
    if coins.len() > 0 && coins[0].denom@ != denom {
        lemma_amount_fits(coins.drop_first(), denom);
    }
}

/// The first coins of a list hold no more of a denomination than the list.
pub proof fn lemma_sum_grows(coins: Seq<Coin>, i: int, denom: Seq<char>)
    requires
        0 <= i <= coins.len(),
    ensures
        sum_of(coins.take(i), denom) <= sum_of(coins, denom),
    decreases coins.len(),
{
    if i == coins.len() {
        assert(coins.take(i) =~= coins);
    } else {
        lemma_sum_grows(coins.drop_last(), i, denom);
        assert(coins.drop_last().take(i) =~= coins.take(i));
    }
}

impl Coin {
    pub fn new(amount: u128, denom: &str) -> (r: Self)
        ensures
            r.amount == amount,
            r.denom@ == denom@,
    {
        Coin { denom: denom.to_owned(), amount }
    }
}

impl Balance {
    /// Whether the balance holds no denomination twice.
    pub open spec fn wf(self) -> bool {
        distinct_denoms(self.coins@)
    }

    /// The amount held of a denomination.
    #[verifier::inline]
    pub open spec fn of(self, denom: Seq<char>) -> nat {
        amount_of(self.coins@, denom)
    }

    /// Whether the balance has an entry of a denomination, be it empty.
    #[verifier::inline]
    pub open spec fn has(self, denom: Seq<char>) -> bool {
        has_denom(self.coins@, denom)
    }

    /// An empty balance.
    pub fn empty() -> (r: Self)
        ensures
            r.wf(),
            r.coins@.len() == 0,
            forall|d: Seq<char>| #[trigger] r.of(d) == 0,
            forall|d: Seq<char>| !#[trigger] r.has(d),
    {
        Balance { coins: Vec::new() }
    }

    /// The balance of a list of coins; nothing where a denomination stands
    /// twice in the list.
    pub fn new(coins: Vec<Coin>) -> (r: Option<Self>)
        ensures
            r is Some <==> distinct_denoms(coins@),
            r matches Some(b) ==> b.coins == coins,
    {
        let mut j: usize = 0;
        while j < coins.len()
            invariant
                0 <= j <= coins.len(),
                forall|a: int, b: int| 0 <= a < b < j ==> (#[trigger] coins[a]).denom@ != (#[trigger] coins[b]).denom@,
            decreases coins.len() - j,
        {
            let mut i: usize = 0;
            while i < j
                invariant
                    0 <= i <= j < coins.len(),
                    forall|a: int| 0 <= a < i ==> (#[trigger] coins[a]).denom@ != coins[j as int].denom@,
                decreases j - i,
            {
                if coins[i].denom == coins[j].denom {
                    return None;
                }
                i += 1;
            }
            j += 1;
        }
        Some(Balance { coins })
    }

    /// The balance that a list of coins adds up to: a denomination that
    /// stands more than once in the list is held once, with the amounts
    /// added up. Nothing where a sum leaves 128 bits.
    pub fn sum(coins: &Vec<Coin>) -> (r: Option<Self>)
        ensures
            r is Some <==> forall|d: Seq<char>| #[trigger] sum_of(coins@, d) <= u128::MAX,
            r matches Some(b) ==> b.wf() && forall|d: Seq<char>| #[trigger] b.of(d) == sum_of(coins@, d),
    {
        let mut all = Balance::empty();
        let mut i: usize = 0;
        proof {
            assert(coins@.take(0) =~= Seq::<Coin>::empty());
        }
        while i < coins.len()
            invariant
                0 <= i <= coins.len(),
                all.wf(),
                forall|d: Seq<char>| #[trigger] all.of(d) == sum_of(coins@.take(i as int), d),
            decreases coins.len() - i,
        {
            let ghost before = all;
            proof {
                assert(coins@.take(i + 1).drop_last() =~= coins@.take(i as int));
                assert(coins@.take(i + 1).last() == coins@[i as int]);
            }
            if !all.add(&coins[i].denom, coins[i].amount) {
                proof {
                    let d = coins@[i as int].denom@;
                    assert(before.of(d) == sum_of(coins@.take(i as int), d));
                    assert(sum_of(coins@.take(i + 1), d) > u128::MAX);
                    lemma_sum_grows(coins@, i + 1, d);
                }
                return None;
            }
            proof {
                assert forall|d: Seq<char>| #[trigger] all.of(d) == sum_of(coins@.take(i + 1), d) by {
                    assert(before.of(d) == sum_of(coins@.take(i as int), d));
                }
            }
            i += 1;
        }
        proof {
            assert(coins@.take(coins.len() as int) =~= coins@);
            assert forall|d: Seq<char>| #[trigger] sum_of(coins@, d) <= u128::MAX by {
                assert(all.of(d) == sum_of(coins@, d));
                lemma_amount_fits(all.coins@, d);
            }
        }
        Some(all)
    }

    /// Adds a coin. Nothing changes and `false` is returned where the sum
    /// leaves 128 bits.
    pub fn add(&mut self, denom: &String, amount: u128) -> (r: bool)
        requires
            old(self).wf(),
        ensures
            final(self).wf(),
            r == (old(self).of(denom@) + amount <= u128::MAX),
            !r ==> *final(self) == *old(self),
            r ==> {
                &&& final(self).has(denom@)
                &&& final(self).of(denom@) == old(self).of(denom@) + amount
                &&& forall|d: Seq<char>| d != denom@ ==> #[trigger] final(self).has(d) == old(self).has(d)
                &&& forall|d: Seq<char>| d != denom@ ==> #[trigger] final(self).of(d) == old(self).of(d)
            },
    {
        let held: u128 = self.amount(denom);
        if amount > u128::MAX - held {
            return false;
        }
        let mut coins: Vec<Coin> = Vec::new();
        std::mem::swap(&mut self.coins, &mut coins);
        self.coins = coins_add(coins, denom, amount);
        true
    }

    /// Takes a coin out. Nothing changes and `false` is returned where the
    /// balance has no entry of the denomination or holds less of it.
    pub fn sub(&mut self, denom: &String, amount: u128) -> (r: bool)
        requires
            old(self).wf(),
        ensures
            final(self).wf(),
            r == (old(self).has(denom@) && old(self).of(denom@) >= amount),
            !r ==> *final(self) == *old(self),
            r ==> {
                &&& final(self).of(denom@) == old(self).of(denom@) - amount
                &&& final(self).has(denom@) == (old(self).of(denom@) != amount)
                &&& forall|d: Seq<char>| d != denom@ ==> #[trigger] final(self).has(d) == old(self).has(d)
                &&& forall|d: Seq<char>| d != denom@ ==> #[trigger] final(self).of(d) == old(self).of(d)
            },
    {
        if !self.holds(denom) || self.amount(denom) < amount {
            return false;
        }
        let mut coins: Vec<Coin> = Vec::new();
        std::mem::swap(&mut self.coins, &mut coins);
        match coins_sub(coins, denom, amount) {
            Some(left) => {
                self.coins = left;
                true
            },
            None => {
                assert(false);
                false
            },
        }
    }

    /// Brings the balance to its normal form: by rising denomination, with
    /// no empty coin. The amount held of each denomination is kept.
    pub fn normalize(&mut self)
        requires
            old(self).wf(),
        ensures
            final(self).wf(),
            normal(final(self).coins@),
            forall|d: Seq<char>| #[trigger] final(self).of(d) == old(self).of(d),
            forall|d: Seq<char>| #[trigger] final(self).has(d) == (old(self).of(d) != 0),
    {
        let mut coins: Vec<Coin> = Vec::new();
        std::mem::swap(&mut self.coins, &mut coins);
        self.coins = coins_normalize(coins);
    }

    /// The amount held of a denomination.
    pub fn amount(&self, denom: &String) -> (r: u128)
        ensures
            r == self.of(denom@),
    {
        let mut i: usize = 0;
        assert(self.coins@.skip(0) =~= self.coins@);
        while i < self.coins.len()
            invariant
                0 <= i <= self.coins.len(),
                amount_of(self.coins@, denom@) == amount_of(self.coins@.skip(i as int), denom@),
            decreases self.coins.len() - i,
        {
            proof {
                let rest = self.coins@.skip(i as int);
                assert(rest[0] == self.coins@[i as int]);
                assert(rest.drop_first() =~= self.coins@.skip(i + 1));
            }
            if self.coins[i].denom == *denom {
                return self.coins[i].amount;
            }
            i += 1;
        }
        proof {
            assert(self.coins@.skip(i as int).len() == 0);
        }
        0
    }

    /// Whether the balance has an entry of a denomination, be it empty.
    pub fn holds(&self, denom: &String) -> (r: bool)
        ensures
            r == self.has(denom@),
    {
        let mut i: usize = 0;
        while i < self.coins.len()
            invariant
                0 <= i <= self.coins.len(),
                forall|k: int| 0 <= k < i ==> (#[trigger] self.coins[k]).denom@ != denom@,
            decreases self.coins.len() - i,
        {
            if self.coins[i].denom == *denom {
                return true;
            }
            i += 1;
        }
        false
    }

    /// Whether no coin of the balance holds anything.
    pub fn is_empty(&self) -> (r: bool)
        ensures
            r == (forall|i: int| 0 <= i < self.coins.len() ==> (#[trigger] self.coins[i]).amount == 0),
    {
        let mut i: usize = 0;
        while i < self.coins.len()
            invariant
                0 <= i <= self.coins.len(),
                forall|k: int| 0 <= k < i ==> (#[trigger] self.coins[k]).amount == 0,
            decreases self.coins.len() - i,
        {
            if self.coins[i].amount != 0 {
                return false;
            }
            i += 1;
        }
        true
    }

    /// The coins of the balance.
    pub fn into_vec(self) -> (r: Vec<Coin>)
        ensures
            r == self.coins,
    {
        self.coins
    }
}

} // verus!
