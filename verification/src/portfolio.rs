//! The portfolio and the rebalance computation.

use crate::allocation::PortfolioTarget;
use crate::fixed::HUNDRED_PERCENT_UNITS;
use crate::laws::lemma_no_key_collision;
use crate::model::alloc_buys;
use crate::model::alloc_sells;
use crate::model::buy_suggestions;
use crate::model::contains_name;
use crate::model::exit_sells;
use crate::model::exit_sells_upto;
use crate::model::holds_name;
use crate::model::lemma_name_count_at_least_one;
use crate::model::lemma_pairs_to_map_dom;
use crate::model::lemma_pairs_to_map_last_match;
use crate::model::lemma_pairs_to_map_no_match;
use crate::model::lemma_share_le_sum;
use crate::model::lemma_target_units_le_total;
use crate::model::name_count;
use crate::model::pairs_to_map;
use crate::model::sell_suggestions;
use crate::model::target_units;
use crate::model::total_value;
use crate::stock::str_equal;
use crate::stock::Stock;
use vstd::prelude::*;

verus! {

/// What a rebalance run suggests: how many whole units of which assets
/// to buy and to sell.  Each list pairs an asset name with a strictly
/// positive unit count, no name appears twice in a list, and no name
/// appears in both lists.
#[derive(Debug)]
pub struct RebalanceSuggestion {
    /// Asset name to number of units to buy.
    pub to_buy: Vec<(String, u64)>,
    /// Asset name to number of units to sell.
    pub to_sell: Vec<(String, u64)>,
}

impl RebalanceSuggestion {
    /// The buys, read as a map from asset name to unit count.
    pub open spec fn buy_map(self) -> Map<Seq<char>, int> {
        pairs_to_map(self.to_buy@)
    }

    /// The sells, read as a map from asset name to unit count.
    pub open spec fn sell_map(self) -> Map<Seq<char>, int> {
        pairs_to_map(self.to_sell@)
    }

    /// Each list names every asset at most once and carries only
    /// strictly positive unit counts.
    pub open spec fn wf(self) -> bool {
        &&& forall|k: int| 0 <= k < self.to_buy@.len() ==> (#[trigger] self.to_buy@[k]).1 > 0
        &&& forall|k: int| 0 <= k < self.to_sell@.len() ==> (#[trigger] self.to_sell@[k]).1 > 0
        &&& forall|k1: int, k2: int|
            0 <= k1 < k2 < self.to_buy@.len() ==> (#[trigger] self.to_buy@[k1]).0@ != (
            #[trigger] self.to_buy@[k2]).0@
        &&& forall|k1: int, k2: int|
            0 <= k1 < k2 < self.to_sell@.len() ==> (#[trigger] self.to_sell@[k1]).0@ != (
            #[trigger] self.to_sell@[k2]).0@
    }

    /// How many units of `name` the run suggests buying, if any.
    pub fn buy_units(&self, name: &str) -> (r: Option<u64>)
        ensures
            match r {
                Some(c) => self.buy_map().dom().contains(name@) && self.buy_map()[name@]
                    == c as int,
                None => !self.buy_map().dom().contains(name@),
            },
    {
        lookup_units(&self.to_buy, name)
    }

    /// How many units of `name` the run suggests selling, if any.
    pub fn sell_units(&self, name: &str) -> (r: Option<u64>)
        ensures
            match r {
                Some(c) => self.sell_map().dom().contains(name@) && self.sell_map()[name@]
                    == c as int,
                None => !self.sell_map().dom().contains(name@),
            },
    {
        lookup_units(&self.to_sell, name)
    }
}

/// Finds the unit count recorded for `name`, scanning from the end so
/// that the answer agrees with the map reading of the list even if a
/// name were repeated.
fn lookup_units(pairs: &Vec<(String, u64)>, name: &str) -> (r: Option<u64>)
    ensures
        match r {
            Some(c) => pairs_to_map(pairs@).dom().contains(name@) && pairs_to_map(pairs@)[name@]
                == c as int,
            None => !pairs_to_map(pairs@).dom().contains(name@),
        },
{
    let mut idx = pairs.len();
    while idx > 0
        invariant
            idx <= pairs@.len(),
            forall|j: int| idx <= j < pairs@.len() ==> (#[trigger] pairs@[j]).0@ != name@,
        decreases idx,
    {
        idx = idx - 1;
        if str_equal(pairs[idx].0.as_str(), name) {
            proof {
                lemma_pairs_to_map_last_match(pairs@, idx as int);
            }
            return Some(pairs[idx].1);
        }
    }
    proof {
        lemma_pairs_to_map_no_match(pairs@, name@);
    }
    None
}

/// How many of the held positions carry the name `name`.
fn count_units(stocks: &Vec<Stock>, name: &str) -> (r: u64)
    ensures
        r as int == name_count(stocks@, name@),
{
    let n = stocks.len();
    let mut c: u64 = 0;
    let mut i: usize = 0;
    while i < n
        invariant
            n == stocks@.len(),
            0 <= i <= n,
            c as int <= i as int,
            c as int == name_count(stocks@.take(i as int), name@),
        decreases n - i,
    {
        proof {
            assert(stocks@.take(i as int + 1).drop_last() =~= stocks@.take(i as int));
            assert(stocks@.take(i as int + 1).last() == stocks@[i as int]);
        }
        if str_equal(stocks[i].name(), name) {
            c = c + 1;
        }
        i = i + 1;
    }
    proof {
        assert(stocks@.take(n as int) =~= stocks@);
    }
    c
}

/// Whether some position before index `upto` carries the name `name`.
fn name_in_prefix(stocks: &Vec<Stock>, upto: usize, name: &str) -> (r: bool)
    requires
        upto <= stocks@.len(),
    ensures
        r == holds_name(stocks@.take(upto as int), name@),
{
    let mut i: usize = 0;
    while i < upto
        invariant
            upto <= stocks@.len(),
            0 <= i <= upto,
            forall|k: int| 0 <= k < i ==> (#[trigger] stocks@[k].spec_name()) != name@,
        decreases upto - i,
    {
        if str_equal(stocks[i].name(), name) {
            proof {
                assert(stocks@.take(upto as int)[i as int] == stocks@[i as int]);
            }
            return true;
        }
        i = i + 1;
    }
    proof {
        assert forall|k: int|
            0 <= k < stocks@.take(upto as int).len() implies (#[trigger] stocks@.take(
            upto as int,
        )[k].spec_name()) != name@ by {
            assert(stocks@.take(upto as int)[k] == stocks@[k]);
        }
    }
    false
}

/// The exact total portfolio value: the sum of every held position's
/// own recorded price.
fn total_portfolio_value(stocks: &Vec<Stock>) -> (r: i64)
    requires
        forall|i: int| 0 <= i < stocks@.len() ==> (#[trigger] stocks@[i]).wf(),
        total_value(stocks@) <= i64::MAX,
    ensures
        r as int == total_value(stocks@),
        r >= 0,
{
    let n = stocks.len();
    let mut sum: i128 = 0;
    let mut i: usize = 0;
    while i < n
        invariant
            n == stocks@.len(),
            0 <= i <= n,
            forall|k: int| 0 <= k < stocks@.len() ==> (#[trigger] stocks@[k]).wf(),
            sum as int == total_value(stocks@.take(i as int)),
            0 <= sum as int <= i as int * (i64::MAX as int),
        decreases n - i,
    {
        proof {
            assert(stocks@.take(i as int + 1).drop_last() =~= stocks@.take(i as int));
            assert(stocks@.take(i as int + 1).last() == stocks@[i as int]);
            assert(stocks@[i as int].wf());
        }
        let price: i64 = stocks[i].current_price().units();
        sum = sum + price as i128;
        i = i + 1;
    }
    proof {
        assert(stocks@.take(n as int) =~= stocks@);
    }
    sum as i64
}

/// A snapshot of held positions together with the allocation the
/// portfolio is aiming at.
#[derive(Debug)]
pub struct Portfolio {
    stocks: Vec<Stock>,
    allocation: PortfolioTarget,
}

impl Portfolio {
    /// The held positions, in the order they were supplied.
    pub closed spec fn spec_stocks(self) -> Seq<Stock> {
        self.stocks@
    }

    /// The target allocation.
    pub closed spec fn spec_allocation(self) -> PortfolioTarget {
        self.allocation
    }

    /// Every held position is well formed and the allocation was
    /// validated.
    pub open spec fn wf(self) -> bool {
        &&& forall|i: int|
            0 <= i < self.spec_stocks().len() ==> (#[trigger] self.spec_stocks()[i]).wf()
        &&& self.spec_allocation().valid()
    }

    /// Puts held positions and a validated allocation together.
    pub fn new(stocks: Vec<Stock>, allocation: PortfolioTarget) -> (r: Portfolio)
        requires
            forall|i: int| 0 <= i < stocks@.len() ==> (#[trigger] stocks@[i]).wf(),
            allocation.valid(),
        ensures
            r.spec_stocks() == stocks@,
            r.spec_allocation() == allocation,
            r.wf(),
    {
        Portfolio { stocks, allocation }
    }

    /// The held positions, in the order they were supplied.
    pub fn stocks(&self) -> (r: &Vec<Stock>)
        ensures
            r@ == self.spec_stocks(),
    {
        &self.stocks
    }

    /// Suggests the whole-unit trades that move the portfolio toward
    /// its target allocation without overshooting it for any single
    /// asset.
    ///
    /// The total value is the sum of every held position's own
    /// recorded price, computed once up front.  An empty portfolio
    /// (total value zero) yields an empty suggestion.  Every held
    /// asset the allocation does not mention is sold in full; every
    /// allocation entry is bought or sold up to the largest whole
    /// unit count whose cost does not exceed the entry's share of the
    /// total value.
    pub fn rebalance_portfolio(&self) -> (r: RebalanceSuggestion)
        requires
            self.wf(),
            total_value(self.spec_stocks()) <= i64::MAX,
        ensures
            r.buy_map() == buy_suggestions(self.spec_stocks(), self.spec_allocation().entries()),
            r.sell_map() == sell_suggestions(self.spec_stocks(), self.spec_allocation().entries()),
            r.wf(),
            r.buy_map().dom().disjoint(r.sell_map().dom()),
            total_value(self.spec_stocks()) == 0 ==> r.to_buy@.len() == 0 && r.to_sell@.len() == 0,
    {
        let ghost stocks_s = self.stocks@;
        let ghost entries_s = self.allocation.entries();

        let mut to_buy: Vec<(String, u64)> = Vec::new();
        let mut to_sell: Vec<(String, u64)> = Vec::new();

        let total: i64 = total_portfolio_value(&self.stocks);

        // An empty portfolio needs no trades.
        if total == 0 {
            proof {
                lemma_no_key_collision(stocks_s, entries_s);
            }
            return RebalanceSuggestion { to_buy, to_sell };
        }

        // Any held asset that the allocation does not mention is sold
        // in full.
        let n = self.stocks.len();
        let mut i: usize = 0;
        while i < n
            invariant
                self.wf(),
                stocks_s == self.stocks@,
                entries_s == self.allocation.entries(),
                n == stocks_s.len(),
                0 <= i <= n,
                total as int == total_value(stocks_s),
                total > 0,
                pairs_to_map(to_sell@) == exit_sells_upto(stocks_s, entries_s, i as int),
                forall|k: int| 0 <= k < to_sell@.len() ==> (#[trigger] to_sell@[k]).1 > 0,
                forall|k1: int, k2: int|
                    0 <= k1 < k2 < to_sell@.len() ==> (#[trigger] to_sell@[k1]).0@ != (
                    #[trigger] to_sell@[k2]).0@,
                forall|k: int|
                    0 <= k < to_sell@.len() ==> !contains_name(
                        entries_s,
                        (#[trigger] to_sell@[k]).0@,
                    ),
            decreases n - i,
        {
            let name = self.stocks[i].name();
            let first = !name_in_prefix(&self.stocks, i, name);
            if first && !self.allocation.contains_key(name) {
                let c = count_units(&self.stocks, name);
                proof {
                    lemma_name_count_at_least_one(stocks_s, i as int);
                    lemma_pairs_to_map_dom(to_sell@);
                }
                let ghost prev = to_sell@;
                to_sell.push((name.to_owned(), c));
                proof {
                    assert(to_sell@.drop_last() =~= prev);
                    assert(stocks_s.take(i as int + 1)[i as int] == stocks_s[i as int]);
                    assert(holds_name(stocks_s.take(i as int + 1), name@));
                    assert forall|m: Seq<char>|
                        m != name@ implies (holds_name(stocks_s.take(i as int + 1), m)
                        == holds_name(stocks_s.take(i as int), m)) by {
                        if holds_name(stocks_s.take(i as int + 1), m) {
                            let k = choose|k: int|
                                0 <= k < stocks_s.take(i as int + 1).len() && (#[trigger] stocks_s.take(
                                    i as int + 1,
                                )[k].spec_name()) == m;
                            assert(stocks_s.take(i as int + 1)[k] == stocks_s[k]);
                            assert(k < i as int);
                            assert(stocks_s.take(i as int)[k] == stocks_s[k]);
                        } else if holds_name(stocks_s.take(i as int), m) {
                            let k = choose|k: int|
                                0 <= k < stocks_s.take(i as int).len() && (#[trigger] stocks_s.take(
                                    i as int,
                                )[k].spec_name()) == m;
                            assert(stocks_s.take(i as int + 1)[k] == stocks_s[k]);
                        }
                    }
                    assert(pairs_to_map(to_sell@) =~= exit_sells_upto(
                        stocks_s,
                        entries_s,
                        i as int + 1,
                    ));
                }
            } else {
                proof {
                    assert(stocks_s.take(i as int + 1)[i as int] == stocks_s[i as int]);
                    assert forall|m: Seq<char>|
                        holds_name(stocks_s.take(i as int + 1), m) && !contains_name(
                            entries_s,
                            m,
                        ) implies holds_name(stocks_s.take(i as int), m) by {
                        let k = choose|k: int|
                            0 <= k < stocks_s.take(i as int + 1).len() && (#[trigger] stocks_s.take(
                                i as int + 1,
                            )[k].spec_name()) == m;
                        assert(stocks_s.take(i as int + 1)[k] == stocks_s[k]);
                        if k == i as int {
                            // the name at i is either seen earlier or targeted
                            assert(holds_name(stocks_s.take(i as int), m));
                        } else {
                            assert(stocks_s.take(i as int)[k] == stocks_s[k]);
                        }
                    }
                    assert forall|m: Seq<char>|
                        holds_name(stocks_s.take(i as int), m) implies holds_name(
                        stocks_s.take(i as int + 1),
                        m,
                    ) by {
                        let k = choose|k: int|
                            0 <= k < stocks_s.take(i as int).len() && (#[trigger] stocks_s.take(
                                i as int,
                            )[k].spec_name()) == m;
                        assert(stocks_s.take(i as int + 1)[k] == stocks_s[k]);
                    }
                    assert(pairs_to_map(to_sell@) =~= exit_sells_upto(
                        stocks_s,
                        entries_s,
                        i as int + 1,
                    ));
                }
            }
            i = i + 1;
        }
        proof {
            assert(stocks_s.take(n as int) =~= stocks_s);
            assert(exit_sells_upto(stocks_s, entries_s, n as int) =~= exit_sells(
                stocks_s,
                entries_s,
            ));
            assert(pairs_to_map(to_sell@) == exit_sells(stocks_s, entries_s));
        }

        // Walk the allocation: buy up to each entry's conservative
        // unit target, or sell down to it.
        let tlist = self.allocation.targets();
        let m = tlist.len();
        let mut t: usize = 0;
        while t < m
            invariant
                self.wf(),
                stocks_s == self.stocks@,
                entries_s == self.allocation.entries(),
                tlist@ == entries_s,
                m == entries_s.len(),
                0 <= t <= m,
                total as int == total_value(stocks_s),
                total > 0,
                pairs_to_map(to_buy@) == alloc_buys(
                    entries_s.take(t as int),
                    stocks_s,
                    total as int,
                ),
                pairs_to_map(to_sell@) == exit_sells(stocks_s, entries_s).union_prefer_right(
                    alloc_sells(entries_s.take(t as int), stocks_s, total as int),
                ),
                forall|k: int| 0 <= k < to_buy@.len() ==> (#[trigger] to_buy@[k]).1 > 0,
                forall|k: int| 0 <= k < to_sell@.len() ==> (#[trigger] to_sell@[k]).1 > 0,
                forall|k1: int, k2: int|
                    0 <= k1 < k2 < to_buy@.len() ==> (#[trigger] to_buy@[k1]).0@ != (
                    #[trigger] to_buy@[k2]).0@,
                forall|k1: int, k2: int|
                    0 <= k1 < k2 < to_sell@.len() ==> (#[trigger] to_sell@[k1]).0@ != (
                    #[trigger] to_sell@[k2]).0@,
                forall|k: int|
                    0 <= k < to_buy@.len() ==> contains_name(
                        entries_s.take(t as int),
                        (#[trigger] to_buy@[k]).0@,
                    ),
                forall|k: int|
                    0 <= k < to_sell@.len() ==> (!contains_name(
                        entries_s,
                        (#[trigger] to_sell@[k]).0@,
                    ) || contains_name(entries_s.take(t as int), to_sell@[k].0@)),
            decreases m - t,
        {
            let share: i64 = tlist[t].0.units();
            let tstock = &tlist[t].1;
            let name = tstock.name();
            let price: i64 = tstock.current_price().units();
            proof {
                assert(entries_s[t as int].1.wf());
                lemma_share_le_sum(entries_s, t as int);
            }

            // The largest whole unit count whose cost stays within
            // this entry's share of the total value.
            let tu: u64 = if price <= 0 {
                0
            } else {
                proof {
                    assert((total as int) * (share as int) <= (i64::MAX as int) * 1000000)
                        by (nonlinear_arith)
                        requires
                            0 <= total as int <= i64::MAX as int,
                            0 < share as int <= 1000000,
                    ;
                }
                let num: u128 = (total as u128) * (share as u128);
                let den: u128 = (HUNDRED_PERCENT_UNITS as u128) * (price as u128);
                let q: u128 = num / den;
                proof {
                    lemma_target_units_le_total(total as int, share as int, price as int);
                }
                q as u64
            };
            proof {
                assert(tu as int == target_units(total as int, share as int, price as int));
            }
            let held: u64 = count_units(&self.stocks, name);

            let ghost prev_buy = to_buy@;
            let ghost prev_sell = to_sell@;
            proof {
                assert(entries_s.take(t as int + 1).drop_last() =~= entries_s.take(t as int));
                assert(entries_s.take(t as int + 1).last() == entries_s[t as int]);
                assert(entries_s.take(t as int + 1)[t as int] == entries_s[t as int]);
                // this entry's name is new: it is not among the names
                // of the earlier entries, nor among the exit sells
                assert forall|k: int|
                    0 <= k < entries_s.take(t as int).len() implies (#[trigger] entries_s.take(
                    t as int,
                )[k].1.spec_name()) != name@ by {
                    assert(entries_s.take(t as int)[k] == entries_s[k]);
                }
                lemma_pairs_to_map_dom(prev_buy);
                lemma_pairs_to_map_dom(prev_sell);
            }
            if tu > held {
                to_buy.push((name.to_owned(), tu - held));
                proof {
                    assert(to_buy@.drop_last() =~= prev_buy);
                    assert forall|k: int|
                        0 <= k < prev_buy.len() implies (#[trigger] prev_buy[k]).0@ != name@ by {
                        assert(contains_name(entries_s.take(t as int), prev_buy[k].0@));
                        let x = choose|x: int|
                            0 <= x < entries_s.take(t as int).len() && (#[trigger] entries_s.take(
                                t as int,
                            )[x].1.spec_name()) == prev_buy[k].0@;
                    }
                    assert forall|k: int|
                        0 <= k < to_buy@.len() implies contains_name(
                        entries_s.take(t as int + 1),
                        (#[trigger] to_buy@[k]).0@,
                    ) by {
                        if k < prev_buy.len() {
                            assert(to_buy@[k] == prev_buy[k]);
                            let x = choose|x: int|
                                0 <= x < entries_s.take(t as int).len() && (
                                #[trigger] entries_s.take(t as int)[x].1.spec_name())
                                    == prev_buy[k].0@;
                            assert(entries_s.take(t as int + 1)[x] == entries_s[x]);
                        } else {
                            assert(to_buy@[k].0@ == name@);
                            assert(entries_s.take(t as int + 1)[t as int].1.spec_name() == name@);
                        }
                    }
                }
            } else if tu < held {
                to_sell.push((name.to_owned(), held - tu));
                proof {
                    assert(to_sell@.drop_last() =~= prev_sell);
                    assert forall|k: int|
                        0 <= k < prev_sell.len() implies (#[trigger] prev_sell[k]).0@ != name@ by {
                        if contains_name(entries_s.take(t as int), prev_sell[k].0@) {
                            let x = choose|x: int|
                                0 <= x < entries_s.take(t as int).len() && (
                                #[trigger] entries_s.take(t as int)[x].1.spec_name())
                                    == prev_sell[k].0@;
                        } else {
                            assert(!contains_name(entries_s, prev_sell[k].0@));
                            assert(entries_s[t as int].1.spec_name() == name@);
                        }
                    }
                    assert(pairs_to_map(to_sell@) =~= exit_sells(
                        stocks_s,
                        entries_s,
                    ).union_prefer_right(
                        alloc_sells(entries_s.take(t as int + 1), stocks_s, total as int),
                    ));
                    assert forall|k: int|
                        0 <= k < to_sell@.len() implies (!contains_name(
                        entries_s,
                        (#[trigger] to_sell@[k]).0@,
                    ) || contains_name(entries_s.take(t as int + 1), to_sell@[k].0@)) by {
                        if k < prev_sell.len() {
                            assert(to_sell@[k] == prev_sell[k]);
                            if contains_name(entries_s.take(t as int), prev_sell[k].0@) {
                                let x = choose|x: int|
                                    0 <= x < entries_s.take(t as int).len() && (
                                    #[trigger] entries_s.take(t as int)[x].1.spec_name())
                                        == prev_sell[k].0@;
                                assert(entries_s.take(t as int + 1)[x] == entries_s[x]);
                            }
                        } else {
                            assert(to_sell@[k].0@ == name@);
                            assert(entries_s.take(t as int + 1)[t as int].1.spec_name() == name@);
                        }
                    }
                }
            } else {
                proof {
                    assert(alloc_buys(entries_s.take(t as int + 1), stocks_s, total as int)
                        == alloc_buys(entries_s.take(t as int), stocks_s, total as int));
                    assert(alloc_sells(entries_s.take(t as int + 1), stocks_s, total as int)
                        == alloc_sells(entries_s.take(t as int), stocks_s, total as int));
                    assert forall|k: int|
                        0 <= k < to_buy@.len() implies contains_name(
                        entries_s.take(t as int + 1),
                        (#[trigger] to_buy@[k]).0@,
                    ) by {
                        let x = choose|x: int|
                            0 <= x < entries_s.take(t as int).len() && (#[trigger] entries_s.take(
                                t as int,
                            )[x].1.spec_name()) == to_buy@[k].0@;
                        assert(entries_s.take(t as int + 1)[x] == entries_s[x]);
                    }
                    assert forall|k: int|
                        0 <= k < to_sell@.len() implies (!contains_name(
                        entries_s,
                        (#[trigger] to_sell@[k]).0@,
                    ) || contains_name(entries_s.take(t as int + 1), to_sell@[k].0@)) by {
                        if contains_name(entries_s.take(t as int), to_sell@[k].0@) {
                            let x = choose|x: int|
                                0 <= x < entries_s.take(t as int).len() && (
                                #[trigger] entries_s.take(t as int)[x].1.spec_name())
                                    == to_sell@[k].0@;
                            assert(entries_s.take(t as int + 1)[x] == entries_s[x]);
                        }
                    }
                }
            }
            t = t + 1;
        }
        proof {
            assert(entries_s.take(m as int) =~= entries_s);
            lemma_no_key_collision(stocks_s, entries_s);
        }
        RebalanceSuggestion { to_buy, to_sell }
    }
}

} // verus!
