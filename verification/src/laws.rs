//! General properties of a rebalance run, stated and proved over the
//! model: what holds of the suggested trades for every portfolio and
//! every validated allocation, not just for chosen example values.

use crate::fixed::Fixed;
use crate::fixed::HUNDRED_PERCENT_UNITS;
use crate::model::alloc_buys;
use crate::model::alloc_sells;
use crate::model::buy_suggestions;
use crate::model::contains_name;
use crate::model::exit_sells;
use crate::model::holds_name;
use crate::model::name_count;
use crate::model::names_unique;
use crate::model::sell_suggestions;
use crate::model::target_units;
use crate::model::total_value;
use crate::stock::Stock;
use vstd::arithmetic::div_mod::lemma_div_pos_is_pos;
use vstd::arithmetic::div_mod::lemma_fundamental_div_mod;
use vstd::arithmetic::div_mod::lemma_mod_division_less_than_divisor;
use vstd::prelude::*;

verus! {

/// Every name the allocation-driven buys or sells mention is the name
/// of some allocation entry.
pub proof fn lemma_alloc_doms(entries: Seq<(Fixed, Stock)>, stocks: Seq<Stock>, total: int)
    ensures
        forall|n: Seq<char>|
            #[trigger] alloc_buys(entries, stocks, total).dom().contains(n) ==> contains_name(
                entries,
                n,
            ),
        forall|n: Seq<char>|
            #[trigger] alloc_sells(entries, stocks, total).dom().contains(n) ==> contains_name(
                entries,
                n,
            ),
    decreases entries.len(),
{
    if entries.len() > 0 {
        lemma_alloc_doms(entries.drop_last(), stocks, total);
        assert forall|n: Seq<char>|
            #[trigger] alloc_buys(entries, stocks, total).dom().contains(n) implies contains_name(
            entries,
            n,
        ) by {
            if alloc_buys(entries.drop_last(), stocks, total).dom().contains(n) {
                let idx = choose|i: int|
                    0 <= i < entries.drop_last().len() && (#[trigger] entries.drop_last()[i]).1.spec_name()
                        == n;
                assert(entries[idx].1.spec_name() == n);
            } else {
                assert(entries[entries.len() - 1].1.spec_name() == n);
            }
        }
        assert forall|n: Seq<char>|
            #[trigger] alloc_sells(entries, stocks, total).dom().contains(n) implies contains_name(
            entries,
            n,
        ) by {
            if alloc_sells(entries.drop_last(), stocks, total).dom().contains(n) {
                let idx = choose|i: int|
                    0 <= i < entries.drop_last().len() && (#[trigger] entries.drop_last()[i]).1.spec_name()
                        == n;
                assert(entries[idx].1.spec_name() == n);
            } else {
                assert(entries[entries.len() - 1].1.spec_name() == n);
            }
        }
    }
}

/// With no asset named twice, no name is both bought and sold by the
/// allocation-driven part of a run.
pub proof fn lemma_alloc_disjoint(entries: Seq<(Fixed, Stock)>, stocks: Seq<Stock>, total: int)
    requires
        names_unique(entries),
    ensures
        alloc_buys(entries, stocks, total).dom().disjoint(
            alloc_sells(entries, stocks, total).dom(),
        ),
    decreases entries.len(),
{
    if entries.len() == 0 {
        assert forall|n: Seq<char>|
            alloc_buys(entries, stocks, total).dom().contains(n) implies !alloc_sells(
            entries,
            stocks,
            total,
        ).dom().contains(n) by {}
    } else {
        let prefix = entries.drop_last();
        assert forall|i: int, j: int|
            0 <= i < j < prefix.len() implies (#[trigger] prefix[i].1.spec_name()) != (
        #[trigger] prefix[j].1.spec_name()) by {
            assert(prefix[i] == entries[i]);
            assert(prefix[j] == entries[j]);
        }
        lemma_alloc_disjoint(prefix, stocks, total);
        lemma_alloc_doms(prefix, stocks, total);
        let n_last = entries.last().1.spec_name();
        assert(!contains_name(prefix, n_last)) by {
            if contains_name(prefix, n_last) {
                let idx = choose|i: int|
                    0 <= i < prefix.len() && (#[trigger] prefix[i]).1.spec_name() == n_last;
                assert(prefix[idx] == entries[idx]);
                assert(entries[idx].1.spec_name() == entries[entries.len() - 1].1.spec_name());
            }
        }
        assert forall|n: Seq<char>|
            alloc_buys(entries, stocks, total).dom().contains(n) implies !alloc_sells(
            entries,
            stocks,
            total,
        ).dom().contains(n) by {
            let tu = target_units(total, entries.last().0.spec_units(), entries.last().1.spec_price());
            let held = name_count(stocks, n_last);
            if n == n_last {
                // the last entry inserts into at most one of the two maps,
                // and the prefix maps do not mention its name at all
                assert(!alloc_buys(prefix, stocks, total).dom().contains(n_last));
                assert(!alloc_sells(prefix, stocks, total).dom().contains(n_last));
            } else {
                assert(alloc_buys(prefix, stocks, total).dom().contains(n));
            }
        }
    }
}

/// **No key collision**: for any holdings and any allocation without
/// duplicate names, the set of names suggested for buying and the set
/// suggested for selling are disjoint.
pub proof fn lemma_no_key_collision(stocks: Seq<Stock>, entries: Seq<(Fixed, Stock)>)
    requires
        names_unique(entries),
    ensures
        buy_suggestions(stocks, entries).dom().disjoint(sell_suggestions(stocks, entries).dom()),
{
    let total = total_value(stocks);
    if total != 0 {
        lemma_alloc_disjoint(entries, stocks, total);
        lemma_alloc_doms(entries, stocks, total);
        assert forall|n: Seq<char>|
            buy_suggestions(stocks, entries).dom().contains(n) implies !sell_suggestions(
            stocks,
            entries,
        ).dom().contains(n) by {
            assert(contains_name(entries, n));
            assert(!exit_sells(stocks, entries).dom().contains(n));
            assert(!alloc_sells(entries, stocks, total).dom().contains(n));
        }
    }
}

/// The allocation-driven maps are both empty when, entry by entry, the
/// held units already equal the conservative unit target.
pub proof fn lemma_alloc_maps_empty(entries: Seq<(Fixed, Stock)>, stocks: Seq<Stock>, total: int)
    requires
        forall|i: int|
            0 <= i < entries.len() ==> name_count(stocks, (#[trigger] entries[i]).1.spec_name())
                == target_units(total, entries[i].0.spec_units(), entries[i].1.spec_price()),
    ensures
        alloc_buys(entries, stocks, total) == Map::<Seq<char>, int>::empty(),
        alloc_sells(entries, stocks, total) == Map::<Seq<char>, int>::empty(),
    decreases entries.len(),
{
    if entries.len() > 0 {
        let prefix = entries.drop_last();
        assert forall|i: int|
            0 <= i < prefix.len() implies name_count(stocks, (#[trigger] prefix[i]).1.spec_name())
            == target_units(total, prefix[i].0.spec_units(), prefix[i].1.spec_price()) by {
            assert(prefix[i] == entries[i]);
        }
        lemma_alloc_maps_empty(prefix, stocks, total);
        assert(entries[entries.len() - 1] == entries.last());
    }
}

/// **Idempotence on balance**: when every held name is targeted by the
/// allocation and, for every allocation entry, the held units already
/// equal the conservative unit target, a rebalance run suggests
/// nothing at all.
pub proof fn lemma_balanced_portfolio_needs_no_trades(
    stocks: Seq<Stock>,
    entries: Seq<(Fixed, Stock)>,
)
    requires
        forall|n: Seq<char>| holds_name(stocks, n) ==> contains_name(entries, n),
        forall|i: int|
            0 <= i < entries.len() ==> name_count(stocks, (#[trigger] entries[i]).1.spec_name())
                == target_units(
                total_value(stocks),
                entries[i].0.spec_units(),
                entries[i].1.spec_price(),
            ),
    ensures
        buy_suggestions(stocks, entries) == Map::<Seq<char>, int>::empty(),
        sell_suggestions(stocks, entries) == Map::<Seq<char>, int>::empty(),
{
    let total = total_value(stocks);
    if total != 0 {
        lemma_alloc_maps_empty(entries, stocks, total);
        assert(exit_sells(stocks, entries) =~= Map::<Seq<char>, int>::empty());
        assert(sell_suggestions(stocks, entries) =~= Map::<Seq<char>, int>::empty());
    }
}

/// **Full exit on a dropped asset**: a held asset absent from the
/// allocation is sold in full — its whole held count appears in the
/// sell suggestions and never among the buys.  (A portfolio whose
/// total value is zero is the one exception: the run suggests nothing
/// at all.)
pub proof fn lemma_full_exit_for_dropped_asset(
    stocks: Seq<Stock>,
    entries: Seq<(Fixed, Stock)>,
    n: Seq<char>,
)
    requires
        holds_name(stocks, n),
        !contains_name(entries, n),
        total_value(stocks) != 0,
    ensures
        sell_suggestions(stocks, entries).dom().contains(n),
        sell_suggestions(stocks, entries)[n] == name_count(stocks, n),
        !buy_suggestions(stocks, entries).dom().contains(n),
{
    let total = total_value(stocks);
    lemma_alloc_doms(entries, stocks, total);
    assert(exit_sells(stocks, entries).dom().contains(n));
    assert(!alloc_sells(entries, stocks, total).dom().contains(n));
    assert(!alloc_buys(entries, stocks, total).dom().contains(n));
}

/// **Conservative truncation**: the suggested unit target never costs
/// more than the asset's exact share of the total value, and one more
/// unit always would.  All quantities are in `Fixed` units, so the
/// share of the total is `total * share` against a unit cost of
/// `100% * price`.
pub proof fn lemma_conservative_truncation(total: int, share: int, price: int)
    requires
        total >= 0,
        share >= 0,
        price > 0,
    ensures
        target_units(total, share, price) >= 0,
        target_units(total, share, price) * ((HUNDRED_PERCENT_UNITS as int) * price) <= total
            * share,
        (target_units(total, share, price) + 1) * ((HUNDRED_PERCENT_UNITS as int) * price) > total
            * share,
{
    let den = (HUNDRED_PERCENT_UNITS as int) * price;
    let num = total * share;
    assert(den >= 1000000) by (nonlinear_arith)
        requires
            price >= 1,
            den == 1000000 * price,
    ;
    assert(num >= 0) by (nonlinear_arith)
        requires
            total >= 0,
            share >= 0,
            num == total * share,
    ;
    let q = num / den;
    lemma_div_pos_is_pos(num, den);
    lemma_fundamental_div_mod(num, den);
    lemma_mod_division_less_than_divisor(num, den);
    assert(num == den * q + num % den);
    assert(q * den == den * q) by (nonlinear_arith);
    assert((q + 1) * den == den * q + den) by (nonlinear_arith);
}

} // verus!
