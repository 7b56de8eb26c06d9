//! The set of market makers, read together in the order of their rates.
use crate::funds::text_lt;
use crate::market_maker::Denoms;
use crate::market_maker::MarketMaker;
use crate::market_maker::accepted;
use crate::market_maker::MarketMakerOffer;
use crate::market_maker::Quote;
use crate::market_maker::Quoter;
use crate::merge::goes_first;
use crate::merge::not_after;
use crate::price::Side;
use crate::tick::Tick;
use vstd::prelude::*;

verus! {

/// The market makers of a pair: the addresses of their contracts, each once.
#[derive(Clone, Debug, PartialEq)]
pub struct MarketMakers {
    pub contracts: Vec<String>,
}

/// Whether a text is in a list.
pub open spec fn among(list: Seq<String>, text: Seq<char>) -> bool {
    exists|i: int| 0 <= i < list.len() && (#[trigger] list[i])@ == text
}

/// Whether the texts of a list rise strictly in dictionary order, so that
/// none stands twice.
pub open spec fn rising(list: Seq<String>) -> bool {
    forall|i: int, j: int| 0 <= i < j < list.len() ==> text_lt((#[trigger] list[i])@, (#[trigger] list[j])@)
}

/// Calls `<` of `String`, std's `PartialOrd::lt`: whether one text comes
/// before another in dictionary order of their characters.
#[verifier::external_body]
pub(crate) fn text_before(a: &String, b: &String) -> (r: bool)
    ensures
        r == text_lt(a@, b@),
{
    a < b
}

/// Dictionary order carries over: what comes before a text comes before
/// everything behind that text.
pub proof fn lemma_text_lt_transitive(a: Seq<char>, b: Seq<char>, c: Seq<char>)
    requires
        text_lt(a, b),
        text_lt(b, c),
    ensures
        text_lt(a, c),
{
    let k1 = choose|k: int|
        0 <= k <= a.len() && k < b.len() && #[trigger] a.take(k) == b.take(k) && (k == a.len()
            || (a[k] as int) < (b[k] as int));
    let k2 = choose|k: int|
        0 <= k <= b.len() && k < c.len() && #[trigger] b.take(k) == c.take(k) && (k == b.len()
            || (b[k] as int) < (c[k] as int));
    let k = if k1 <= k2 {
        k1
    } else {
        k2
    };
    assert(a.take(k) =~= a.take(k1).take(k));
    assert(b.take(k) =~= b.take(k1).take(k));
    assert(b.take(k) =~= b.take(k2).take(k));
    assert(c.take(k) =~= c.take(k2).take(k));
    assert(a.take(k) == c.take(k));
    if k1 < k2 {
        assert(b[k1] == b.take(k2)[k1]);
        assert(c[k1] == c.take(k2)[k1]);
    } else if k2 < k1 {
        assert(a[k2] == a.take(k1)[k2]);
        assert(b[k2] == b.take(k1)[k2]);
    }
}

/// Of two texts that differ, one comes before the other.
pub proof fn lemma_text_lt_total(a: Seq<char>, b: Seq<char>, n: int)
    requires
        0 <= n <= a.len(),
        n <= b.len(),
        forall|i: int| 0 <= i < n ==> a[i] == b[i],
    ensures
        a == b || text_lt(a, b) || text_lt(b, a),
    decreases a.len() - n,
{
    assert(a.take(n) =~= b.take(n));
    if n == a.len() && n == b.len() {
        assert(a =~= b);
    } else if n == a.len() {
        assert(text_lt(a, b));
    } else if n == b.len() {
        assert(b.take(n) == a.take(n));
        assert(text_lt(b, a));
    } else if a[n] != b[n] {
        if (a[n] as int) < (b[n] as int) {
            assert(text_lt(a, b));
        } else {
            assert(b.take(n) == a.take(n));
            assert((b[n] as int) < (a[n] as int));
            assert(text_lt(b, a));
        }
    } else {
        lemma_text_lt_total(a, b, n + 1);
    }
}

/// Puts a text at its place in a rising list, unless it is there already.
fn put(list: &mut Vec<String>, text: String)
    requires
        rising(old(list)@),
    ensures
        rising(final(list)@),
        forall|t: Seq<char>| #[trigger] among(final(list)@, t) <==> among(old(list)@, t) || t == text@,
{
    let mut p: usize = 0;
    while p < list.len() && text_before(&list[p], &text)
        invariant
            0 <= p <= list.len(),
            *list == *old(list),
            forall|k: int| 0 <= k < p ==> text_lt((#[trigger] list[k])@, text@),
        decreases list.len() - p,
    {
        p += 1;
    }
    let ghost before = list@;
    if p < list.len() && list[p] == text {
        proof {
            assert forall|t: Seq<char>| #[trigger] among(before, t) <==> among(before, t) || t == text@ by {
                if t == text@ {
                    assert(before[p as int]@ == t);
                }
            }
        }
        return ;
    }
    proof {
        if p < list.len() {
            lemma_text_lt_total(text@, before[p as int]@, 0);
            assert(text_lt(text@, before[p as int]@));
        }
    }
    list.insert(p, text);
    proof {
        let after = list@;
        assert forall|i: int, j: int| 0 <= i < j < after.len() implies text_lt(
            (#[trigger] after[i])@,
            (#[trigger] after[j])@,
        ) by {
            if j < p {
                assert(after[i] == before[i] && after[j] == before[j]);
            } else if j == p {
                assert(after[i] == before[i]);
            } else if i < p {
                assert(after[i] == before[i] && after[j] == before[j - 1]);
            } else if i == p {
                assert(after[j] == before[j - 1]);
                if j - 1 > p {
                    lemma_text_lt_transitive(text@, before[p as int]@, before[j - 1]@);
                }
            } else {
                assert(after[i] == before[i - 1] && after[j] == before[j - 1]);
            }
        }
        assert forall|t: Seq<char>| #[trigger] among(after, t) <==> among(before, t) || t == text@ by {
            if among(after, t) {
                let i = choose|i: int| 0 <= i < after.len() && (#[trigger] after[i])@ == t;
                if i < p {
                    assert(before[i]@ == t);
                } else if i > p {
                    assert(before[i - 1]@ == t);
                }
            }
            if among(before, t) {
                let i = choose|i: int| 0 <= i < before.len() && (#[trigger] before[i])@ == t;
                if i < p {
                    assert(after[i]@ == t);
                } else {
                    assert(after[i + 1]@ == t);
                }
            }
            if t == text@ {
                assert(after[p as int]@ == t);
            }
        }
    }
}

impl MarketMakers {
    /// Whether the contracts stand in rising order, each once.
    pub open spec fn wf(self) -> bool {
        rising(self.contracts@)
    }

    /// The set of the given contracts: each once, in rising order.
    pub fn new(market_makers: Vec<String>) -> (r: Self)
        ensures
            r.wf(),
            forall|text: Seq<char>| #[trigger] among(r.contracts@, text) <==> among(market_makers@, text),
    {
        let mut contracts: Vec<String> = Vec::new();
        let mut i: usize = 0;
        while i < market_makers.len()
            invariant
                0 <= i <= market_makers.len(),
                rising(contracts@),
                forall|text: Seq<char>| #[trigger] among(contracts@, text) <==> among(market_makers@.take(i as int), text),
            decreases market_makers.len() - i,
        {
            let ghost before = contracts@;
            put(&mut contracts, market_makers[i].clone());
            proof {
                let seen = market_makers@.take(i as int);
                let more = market_makers@.take(i + 1);
                assert forall|text: Seq<char>| #[trigger] among(contracts@, text) <==> among(more, text) by {
                    assert(among(before, text) <==> among(seen, text));
                    if among(more, text) {
                        let k = choose|k: int| 0 <= k < more.len() && (#[trigger] more[k])@ == text;
                        if k < i {
                            assert(seen[k]@ == text);
                        }
                    }
                    if among(seen, text) {
                        let k = choose|k: int| 0 <= k < seen.len() && (#[trigger] seen[k])@ == text;
                        assert(more[k]@ == text);
                    }
                    if text == market_makers@[i as int]@ {
                        assert(more[i as int]@ == text);
                    }
                }
            }
            i += 1;
        }
        proof {
            assert(market_makers@.take(i as int) =~= market_makers@);
        }
        Self { contracts }
    }

    /// Starts reading all market makers on a side: one reader for each, none
    /// asked yet.
    pub fn iter(&self, denoms: &Denoms, tick: &Tick, side: &Side) -> (r: MakerIter)
        ensures
            r.wf(),
            r.side == *side,
            r.sources.len() == self.contracts.len(),
            forall|i: int| 0 <= i < r.sources.len() ==> {
                &&& (#[trigger] r.sources[i]).contract@ == self.contracts[i]@
                &&& r.sources[i].side == *side
                &&& r.sources[i].tick == *tick
                &&& r.sources[i].last_price is None
                &&& r.heads[i] is None
                &&& r.unread[i]
            },
    {
        let mut sources: Vec<MarketMaker> = Vec::new();
        let mut heads: Vec<Option<MarketMakerOffer>> = Vec::new();
        let mut unread: Vec<bool> = Vec::new();
        let mut i: usize = 0;
        while i < self.contracts.len()
            invariant
                0 <= i <= self.contracts.len(),
                sources.len() == i,
                heads.len() == i,
                unread.len() == i,
                forall|k: int| 0 <= k < i ==> {
                    &&& (#[trigger] sources[k]).contract@ == self.contracts[k]@
                    &&& sources[k].side == *side
                    &&& sources[k].tick == *tick
                    &&& sources[k].last_price is None
                    &&& heads[k] is None
                    &&& unread[k]
                },
            decreases self.contracts.len() - i,
        {
            sources.push(MarketMaker::new(denoms.clone(), *side, self.contracts[i].clone(), *tick));
            heads.push(None);
            unread.push(true);
            i += 1;
        }
        MakerIter { side: *side, sources, heads, unread }
    }
}

/// A reading of all market makers on one side: for each source the level it
/// is at, if it has been asked and has one.
#[derive(Clone, Debug, PartialEq)]
pub struct MakerIter {
    pub side: Side,
    pub sources: Vec<MarketMaker>,
    /// The level that each source is at.
    pub heads: Vec<Option<MarketMakerOffer>>,
    /// Whether each source has to be asked before the next level is chosen.
    pub unread: Vec<bool>,
}

/// Whether no source is at a level.
pub open spec fn all_spent(heads: Seq<Option<MarketMakerOffer>>) -> bool {
    forall|i: int| 0 <= i < heads.len() ==> (#[trigger] heads[i]) is None
}

/// Whether a rate may stand before the level of every source.
pub open spec fn bounds_heads(rate: u128, heads: Seq<Option<MarketMakerOffer>>, side: Side) -> bool {
    forall|i: int| 0 <= i < heads.len() ==> ((#[trigger] heads[i]) matches Some(o) ==> not_after(side, rate, o.rate))
}

/// The levels at a rate, in the order of their sources.
pub open spec fn tied(heads: Seq<Option<MarketMakerOffer>>, rate: u128) -> Seq<MarketMakerOffer>
    decreases heads.len(),
{
    if heads.len() == 0 {
        Seq::empty()
    } else {
        match heads.last() {
            Some(o) => if o.rate == rate {
                tied(heads.drop_last(), rate).push(o)
            } else {
                tied(heads.drop_last(), rate)
            },
            None => tied(heads.drop_last(), rate),
        }
    }
}

/// Whether a source's level stands at a rate.
pub open spec fn at_rate(head: Option<MarketMakerOffer>, rate: u128) -> bool {
    head matches Some(o) && o.rate == rate
}

/// Every level at a rate is among the tied ones, and every tied one stands
/// at that rate.
pub proof fn lemma_tied_members(heads: Seq<Option<MarketMakerOffer>>, rate: u128)
    ensures
        forall|k: int| 0 <= k < tied(heads, rate).len() ==> (#[trigger] tied(heads, rate)[k]).rate == rate,
        (exists|i: int| 0 <= i < heads.len() && at_rate(#[trigger] heads[i], rate)) ==> tied(heads, rate).len() > 0,
    decreases heads.len(),
{
    if heads.len() > 0 {
        let front = heads.drop_last();
        lemma_tied_members(front, rate);
        if exists|i: int| 0 <= i < heads.len() && at_rate(#[trigger] heads[i], rate) {
            let i = choose|i: int| 0 <= i < heads.len() && at_rate(#[trigger] heads[i], rate);
            if i < heads.len() - 1 {
                assert(at_rate(front[i], rate));
            }
        }
    }
}

/// Whether a source of a reading has been dealt with as asking asks: one
/// that was marked has been asked and is at what its reader made of the
/// answer; one that was not is as it was. None is marked afterwards.
pub open spec fn settled(before: MakerIter, after: MakerIter, k: int) -> bool {
    &&& !after.unread[k]
    &&& if before.unread[k] {
        exists|answer: Option<Quote>| #[trigger]
            accepted(before.sources[k], answer, after.sources[k], after.heads[k])
    } else {
        after.sources[k] == before.sources[k] && after.heads[k] == before.heads[k]
    }
}

/// Whether a reading is another one with every marked source asked.
pub open spec fn asked(before: MakerIter, after: MakerIter) -> bool {
    &&& after.wf()
    &&& after.side == before.side
    &&& after.sources.len() == before.sources.len()
    &&& forall|k: int| 0 <= k < after.sources.len() ==> #[trigger] settled(before, after, k)
}

/// Whether a reading is another one with the levels at the best rate taken
/// out: all sources that tie at it have given their level, in the order of
/// the sources, and are marked to be asked again; the others are as they
/// were. Nothing is taken where no source is at a level.
pub open spec fn best_taken(before: MakerIter, after: MakerIter, r: Option<Vec<MarketMakerOffer>>) -> bool {
    &&& after.wf()
    &&& after.side == before.side
    &&& after.sources == before.sources
    &&& r is None <==> all_spent(before.heads@)
    &&& r is None ==> after == before
    &&& r matches Some(group) ==> {
        &&& group.len() > 0
        &&& bounds_heads(group[0].rate, before.heads@, before.side)
        &&& group@ == tied(before.heads@, group[0].rate)
        &&& forall|i: int| 0 <= i < before.heads.len() ==> if at_rate(#[trigger] before.heads[i], group[0].rate) {
            after.heads[i] is None && after.unread[i]
        } else {
            after.heads[i] == before.heads[i] && after.unread[i] == before.unread[i]
        }
    }
}

/// Whether a reading is another one after a pull: the marked sources asked,
/// then the levels at the best rate taken out.
pub open spec fn pulled(before: MakerIter, after: MakerIter, r: Option<Vec<MarketMakerOffer>>) -> bool {
    exists|mid: MakerIter| #[trigger] asked(before, mid) && best_taken(mid, after, r)
}

impl MakerIter {
    /// Whether the reading holds one level slot and one mark for each source.
    pub open spec fn wf(self) -> bool {
        self.heads.len() == self.sources.len() && self.unread.len() == self.sources.len()
    }

    /// The best rate among the levels that the sources are at.
    fn best(&self) -> (r: Option<u128>)
        requires
            self.wf(),
        ensures
            r is None <==> all_spent(self.heads@),
            r matches Some(rate) ==> bounds_heads(rate, self.heads@, self.side) && exists|i: int|
                0 <= i < self.heads.len() && at_rate(#[trigger] self.heads[i], rate),
    {
        let mut best: Option<u128> = None;
        let mut i: usize = 0;
        while i < self.heads.len()
            invariant
                0 <= i <= self.heads.len(),
                best is None <==> all_spent(self.heads@.take(i as int)),
                best matches Some(rate) ==> bounds_heads(rate, self.heads@.take(i as int), self.side)
                    && exists|k: int| 0 <= k < i && at_rate(#[trigger] self.heads[k], rate),
            decreases self.heads.len() - i,
        {
            let ghost before = self.heads@.take(i as int);
            let ghost after = self.heads@.take(i + 1);
            proof {
                assert forall|k: int| 0 <= k < i implies after[k] == before[k] by {}
                assert(after[i as int] == self.heads@[i as int]);
            }
            match &self.heads[i] {
                Some(offer) => {
                    let better = match best {
                        None => true,
                        Some(rate) => match self.side {
                            Side::Base => offer.rate < rate,
                            Side::Quote => offer.rate > rate,
                        },
                    };
                    if better {
                        proof {
                            assert forall|k: int| 0 <= k < after.len() implies ((#[trigger] after[k]) matches Some(o)
                                ==> not_after(self.side, offer.rate, o.rate)) by {
                                if k < i {
                                    assert(after[k] == before[k]);
                                }
                            }
                            assert(at_rate(self.heads[i as int], offer.rate));
                        }
                        best = Some(offer.rate);
                    } else {
                        proof {
                            let rate = best.unwrap();
                            assert forall|k: int| 0 <= k < after.len() implies ((#[trigger] after[k]) matches Some(o)
                                ==> not_after(self.side, rate, o.rate)) by {
                                if k < i {
                                    assert(after[k] == before[k]);
                                }
                            }
                        }
                    }
                    proof {
                        assert(after[i as int] is Some);
                    }
                },
                None => {
                    proof {
                        if best is None {
                            assert forall|k: int| 0 <= k < after.len() implies (#[trigger] after[k]) is None by {
                                if k < i {
                                    assert(after[k] == before[k]);
                                }
                            }
                        } else {
                            let rate = best.unwrap();
                            assert forall|k: int| 0 <= k < after.len() implies ((#[trigger] after[k]) matches Some(o)
                                ==> not_after(self.side, rate, o.rate)) by {
                                if k < i {
                                    assert(after[k] == before[k]);
                                }
                            }
                            let k0 = choose|k: int| 0 <= k < before.len() && before[k] is Some;
                            assert(after[k0] == before[k0]);
                        }
                    }
                },
            }
            proof {
                if best is Some {
                    if all_spent(after) {
                        let rate = best.unwrap();
                        let k = choose|k: int| 0 <= k < i + 1 && at_rate(#[trigger] self.heads[k], rate);
                        assert(after[k] is None);
                    }
                }
            }
            i += 1;
        }
        proof {
            assert(self.heads@.take(i as int) =~= self.heads@);
        }
        best
    }

    /// Takes the levels at the best rate out of the reading: all sources that
    /// tie at it give their level, in the order of the sources, and are
    /// marked to be asked again. Nothing where no source is at a level.
    pub fn take_best(&mut self) -> (r: Option<Vec<MarketMakerOffer>>)
        requires
            old(self).wf(),
        ensures
            best_taken(*old(self), *final(self), r),
    {
        let rate: u128 = match self.best() {
            Some(rate) => rate,
            None => {
                return None;
            },
        };
        let ghost start = self.heads@;
        let ghost marks = self.unread@;
        let n: usize = self.heads.len();
        let mut rest: Vec<Option<MarketMakerOffer>> = Vec::new();
        std::mem::swap(&mut self.heads, &mut rest);
        let mut group: Vec<MarketMakerOffer> = Vec::new();
        let mut i: usize = 0;
        while i < n
            invariant
                0 <= i <= n,
                n == start.len(),
                n == self.sources.len(),
                self.unread.len() == n,
                self.heads.len() == i,
                rest@ =~= start.skip(i as int),
                group@ == tied(start.take(i as int), rate),
                self.side == old(self).side,
                self.sources == old(self).sources,
                forall|k: int| 0 <= k < i ==> if at_rate(#[trigger] start[k], rate) {
                    self.heads[k] is None && self.unread[k]
                } else {
                    self.heads[k] == start[k] && self.unread[k] == marks[k]
                },
                forall|k: int| i <= k < n ==> self.unread[k] == marks[k],
            decreases n - i,
        {
            let head = rest.remove(0);
            proof {
                assert(head == start[i as int]);
                assert(start.take(i + 1).drop_last() =~= start.take(i as int));
                assert(start.take(i + 1).last() == start[i as int]);
            }
            match head {
                Some(offer) => {
                    if offer.rate == rate {
                        group.push(offer);
                        self.heads.push(None);
                        self.unread.set(i, true);
                    } else {
                        self.heads.push(Some(offer));
                    }
                },
                None => {
                    self.heads.push(None);
                },
            }
            i += 1;
        }
        proof {
            assert(start.take(n as int) =~= start);
            lemma_tied_members(start, rate);
        }
        Some(group)
    }

    /// Asks every source that is marked, and puts the level it answers with
    /// in its slot.
    fn fill(&mut self, quoter: &Quoter)
        requires
            old(self).wf(),
        ensures
            asked(*old(self), *final(self)),
    {
        let n: usize = self.sources.len();
        let mut i: usize = 0;
        while i < n
            invariant
                0 <= i <= n,
                n == self.sources.len(),
                n == old(self).sources.len(),
                n == old(self).heads.len(),
                n == old(self).unread.len(),
                self.wf(),
                self.side == old(self).side,
                forall|k: int| 0 <= k < i ==> settled(*old(self), *self, k),
                forall|k: int| i <= k < n ==> {
                    &&& (#[trigger] self.unread[k]) == old(self).unread[k]
                    &&& self.sources[k] == old(self).sources[k]
                    &&& self.heads[k] == old(self).heads[k]
                },
            decreases n - i,
        {
            let ghost before = *self;
            let ghost mut answer: Option<Quote> = None;
            if self.unread[i] {
                let mut source = self.sources.remove(i);
                let ghost was = source;
                let offer = source.next(quoter);
                proof {
                    answer = choose|answer: Option<Quote>| #[trigger] accepted(was, answer, source, offer);
                    assert(was == old(self).sources[i as int]);
                    assert(accepted(old(self).sources[i as int], answer, source, offer));
                }
                self.sources.insert(i, source);
                self.heads.set(i, offer);
                self.unread.set(i, false);
            }
            proof {
                assert forall|k: int| 0 <= k < i + 1 implies settled(*old(self), *self, k) by {
                    if k < i {
                        assert(settled(*old(self), before, k));
                        assert(self.sources[k] == before.sources[k]);
                        assert(self.heads[k] == before.heads[k]);
                        assert(self.unread[k] == before.unread[k]);
                    } else {
                        assert(before.unread[k] == old(self).unread[k]);
                        assert(before.sources[k] == old(self).sources[k]);
                        assert(before.heads[k] == old(self).heads[k]);
                        if before.unread[k] {
                            assert(accepted(
                                old(self).sources[k],
                                answer,
                                self.sources[k],
                                self.heads[k],
                            ));
                        }
                    }
                }
                assert forall|k: int| i + 1 <= k < n implies {
                    &&& (#[trigger] self.unread[k]) == old(self).unread[k]
                    &&& self.sources[k] == old(self).sources[k]
                    &&& self.heads[k] == old(self).heads[k]
                } by {
                    assert(before.unread[k] == old(self).unread[k]);
                    assert(before.sources[k] == old(self).sources[k]);
                    assert(before.heads[k] == old(self).heads[k]);
                    assert(self.unread[k] == before.unread[k]);
                    assert(self.heads[k] == before.heads[k]);
                    assert(self.sources[k] == before.sources[k]);
                }
            }
            i += 1;
        }
    }

    /// Pulls the next group of levels: asks the sources that have to be
    /// asked, then takes the levels at the best rate, all that tie. Whatever
    /// the market makers answer, the group is not empty, its levels are at
    /// one rate, and every level left in the reading is at a worse rate.
    /// Nothing once no source has a level.
    pub fn next(&mut self, quoter: &Quoter) -> (r: Option<Vec<MarketMakerOffer>>)
        requires
            old(self).wf(),
        ensures
            pulled(*old(self), *final(self), r),
            final(self).wf(),
            final(self).side == old(self).side,
            final(self).sources.len() == old(self).sources.len(),
            r is None ==> all_spent(final(self).heads@),
            r matches Some(group) ==> {
                &&& group.len() > 0
                &&& forall|k: int| 0 <= k < group.len() ==> (#[trigger] group[k]).rate == group[0].rate
                &&& forall|i: int| 0 <= i < final(self).heads.len() ==> ((#[trigger] final(self).heads[i]) matches Some(o)
                        ==> goes_first(final(self).side, group[0].rate, o.rate))
            },
    {
        self.fill(quoter);
        let ghost filled = self.heads@;
        let r = self.take_best();
        proof {
            if r is Some {
                let group = r.unwrap();
                lemma_tied_members(filled, group[0].rate);
                assert forall|i: int| 0 <= i < self.heads.len() implies ((#[trigger] self.heads[i]) matches Some(o)
                    ==> goes_first(self.side, group[0].rate, o.rate)) by {
                    if let Some(o) = self.heads[i] {
                        assert(!at_rate(filled[i], group[0].rate));
                        assert(filled[i] == Some(o));
                    }
                }
            }
        }
        r
    }
}

} // verus!
