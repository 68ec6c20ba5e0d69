//! The mathematical model of a portfolio and of a rebalance run.
//!
//! Everything the executable code promises is stated over these spec
//! functions: multiplicities of held names, the exact total value, the
//! conservatively truncated unit target per allocation entry, and the
//! two suggestion maps a rebalance run must produce.

use crate::fixed::Fixed;
use crate::fixed::HUNDRED_PERCENT_UNITS;
use crate::stock::Stock;
use vstd::prelude::*;

verus! {

// ---------------------------------------------------------------------
// Held positions
// ---------------------------------------------------------------------

/// How many of the held positions carry the name `n`.
pub open spec fn name_count(stocks: Seq<Stock>, n: Seq<char>) -> int
    decreases stocks.len(),
{
    if stocks.len() == 0 {
        0
    } else {
        name_count(stocks.drop_last(), n) + if stocks.last().spec_name() == n {
            1int
        } else {
            0int
        }
    }
}

/// Whether some held position carries the name `n`.
pub open spec fn holds_name(stocks: Seq<Stock>, n: Seq<char>) -> bool {
    exists|i: int| 0 <= i < stocks.len() && #[trigger] stocks[i].spec_name() == n
}

/// The exact total portfolio value: the sum of every held position's
/// own recorded price, in `Fixed` units.
pub open spec fn total_value(stocks: Seq<Stock>) -> int
    decreases stocks.len(),
{
    if stocks.len() == 0 {
        0
    } else {
        total_value(stocks.drop_last()) + stocks.last().spec_price()
    }
}

// ---------------------------------------------------------------------
// Target allocation entries
// ---------------------------------------------------------------------

/// The exact sum of the percentage shares, in `Fixed` units.
pub open spec fn share_sum(entries: Seq<(Fixed, Stock)>) -> int
    decreases entries.len(),
{
    if entries.len() == 0 {
        0
    } else {
        share_sum(entries.drop_last()) + entries.last().0.spec_units()
    }
}

/// Every share is strictly positive.
pub open spec fn all_shares_positive(entries: Seq<(Fixed, Stock)>) -> bool {
    forall|i: int| 0 <= i < entries.len() ==> #[trigger] entries[i].0.spec_units() > 0
}

/// Some entry targets the name `n`.
pub open spec fn contains_name(entries: Seq<(Fixed, Stock)>, n: Seq<char>) -> bool {
    exists|i: int| 0 <= i < entries.len() && #[trigger] entries[i].1.spec_name() == n
}

/// No two entries target the same name.
pub open spec fn names_unique(entries: Seq<(Fixed, Stock)>) -> bool {
    forall|i: int, j: int|
        0 <= i < j < entries.len() ==> (#[trigger] entries[i].1.spec_name()) != (
        #[trigger] entries[j].1.spec_name())
}

/// Every targeted stock is well formed (non-negative price).
pub open spec fn all_targets_wf(entries: Seq<(Fixed, Stock)>) -> bool {
    forall|i: int| 0 <= i < entries.len() ==> (#[trigger] entries[i].1).wf()
}

/// What the validating constructor guarantees of an allocation: the
/// shares sum to exactly 100%, each is strictly positive, and no asset
/// is named twice.
pub open spec fn valid_entries(entries: Seq<(Fixed, Stock)>) -> bool {
    &&& share_sum(entries) == HUNDRED_PERCENT_UNITS
    &&& all_shares_positive(entries)
    &&& names_unique(entries)
}

// ---------------------------------------------------------------------
// The conservative unit target
// ---------------------------------------------------------------------

/// The largest whole number of units of an asset priced `price` whose
/// cost does not exceed the share `share` of the total value `total`
/// (all in `Fixed` units): the floor of `total * (share/100%) / price`.
/// Money cannot meaningfully be allocated to a zero-priced asset, so a
/// non-positive price yields a target of zero rather than a division
/// by zero.
pub open spec fn target_units(total: int, share: int, price: int) -> int {
    if price <= 0 {
        0
    } else {
        (total * share) / ((HUNDRED_PERCENT_UNITS as int) * price)
    }
}

// ---------------------------------------------------------------------
// The suggested trades
// ---------------------------------------------------------------------

/// Full exits: every held name absent from the allocation maps to the
/// whole held count.
pub open spec fn exit_sells(stocks: Seq<Stock>, entries: Seq<(Fixed, Stock)>) -> Map<
    Seq<char>,
    int,
> {
    Map::new(
        |n: Seq<char>| holds_name(stocks, n) && !contains_name(entries, n),
        |n: Seq<char>| name_count(stocks, n),
    )
}

/// The buys driven by the allocation: each entry whose conservative
/// unit target exceeds the held count maps to the difference.
pub open spec fn alloc_buys(entries: Seq<(Fixed, Stock)>, stocks: Seq<Stock>, total: int) -> Map<
    Seq<char>,
    int,
>
    decreases entries.len(),
{
    if entries.len() == 0 {
        Map::empty()
    } else {
        let rest = alloc_buys(entries.drop_last(), stocks, total);
        let share = entries.last().0.spec_units();
        let st = entries.last().1;
        let tu = target_units(total, share, st.spec_price());
        let held = name_count(stocks, st.spec_name());
        if tu > held {
            rest.insert(st.spec_name(), tu - held)
        } else {
            rest
        }
    }
}

/// The sells driven by the allocation: each entry whose conservative
/// unit target falls short of the held count maps to the difference.
pub open spec fn alloc_sells(entries: Seq<(Fixed, Stock)>, stocks: Seq<Stock>, total: int) -> Map<
    Seq<char>,
    int,
>
    decreases entries.len(),
{
    if entries.len() == 0 {
        Map::empty()
    } else {
        let rest = alloc_sells(entries.drop_last(), stocks, total);
        let share = entries.last().0.spec_units();
        let st = entries.last().1;
        let tu = target_units(total, share, st.spec_price());
        let held = name_count(stocks, st.spec_name());
        if tu < held {
            rest.insert(st.spec_name(), held - tu)
        } else {
            rest
        }
    }
}

/// Everything a rebalance run suggests buying: nothing when the
/// portfolio is empty (total value zero), the allocation-driven buys
/// otherwise.
pub open spec fn buy_suggestions(stocks: Seq<Stock>, entries: Seq<(Fixed, Stock)>) -> Map<
    Seq<char>,
    int,
> {
    if total_value(stocks) == 0 {
        Map::empty()
    } else {
        alloc_buys(entries, stocks, total_value(stocks))
    }
}

/// Everything a rebalance run suggests selling: nothing when the
/// portfolio is empty, otherwise the full exits together with the
/// allocation-driven sells (their name sets are disjoint, so the union
/// order is immaterial).
pub open spec fn sell_suggestions(stocks: Seq<Stock>, entries: Seq<(Fixed, Stock)>) -> Map<
    Seq<char>,
    int,
> {
    if total_value(stocks) == 0 {
        Map::empty()
    } else {
        exit_sells(stocks, entries).union_prefer_right(
            alloc_sells(entries, stocks, total_value(stocks)),
        )
    }
}

/// The full exits found while walking only the held positions before
/// `upto`, with counts still taken over all held positions: the state
/// of the exit scan after `upto` steps.
pub open spec fn exit_sells_upto(
    stocks: Seq<Stock>,
    entries: Seq<(Fixed, Stock)>,
    upto: int,
) -> Map<Seq<char>, int> {
    Map::new(
        |n: Seq<char>| holds_name(stocks.take(upto), n) && !contains_name(entries, n),
        |n: Seq<char>| name_count(stocks, n),
    )
}

/// Reads a suggestion list as a map from asset name to unit count;
/// a later pair for the same name overrides an earlier one.
pub open spec fn pairs_to_map(pairs: Seq<(String, u64)>) -> Map<Seq<char>, int>
    decreases pairs.len(),
{
    if pairs.len() == 0 {
        Map::empty()
    } else {
        pairs_to_map(pairs.drop_last()).insert(pairs.last().0@, pairs.last().1 as int)
    }
}

// ---------------------------------------------------------------------
// Facts about the model, shared by the executable code and the laws
// ---------------------------------------------------------------------

/// The multiplicity of a name never exceeds the number of positions,
/// and is never negative.
pub proof fn lemma_name_count_bounds(stocks: Seq<Stock>, n: Seq<char>)
    ensures
        0 <= name_count(stocks, n) <= stocks.len(),
    decreases stocks.len(),
{
    if stocks.len() > 0 {
        lemma_name_count_bounds(stocks.drop_last(), n);
    }
}

/// A name that occurs at some position has multiplicity at least one.
pub proof fn lemma_name_count_at_least_one(stocks: Seq<Stock>, i: int)
    requires
        0 <= i < stocks.len(),
    ensures
        name_count(stocks, stocks[i].spec_name()) >= 1,
    decreases stocks.len(),
{
    lemma_name_count_bounds(stocks.drop_last(), stocks[i].spec_name());
    if i < stocks.len() - 1 {
        assert(stocks.drop_last()[i] == stocks[i]);
        lemma_name_count_at_least_one(stocks.drop_last(), i);
    }
}

/// The domain of a suggestion list read as a map is exactly the set of
/// names its pairs carry.
pub proof fn lemma_pairs_to_map_dom(pairs: Seq<(String, u64)>)
    ensures
        forall|k: int|
            0 <= k < pairs.len() ==> pairs_to_map(pairs).dom().contains(
                (#[trigger] pairs[k]).0@,
            ),
        forall|n: Seq<char>|
            #[trigger] pairs_to_map(pairs).dom().contains(n) ==> exists|k: int|
                0 <= k < pairs.len() && (#[trigger] pairs[k]).0@ == n,
    decreases pairs.len(),
{
    if pairs.len() > 0 {
        lemma_pairs_to_map_dom(pairs.drop_last());
        assert forall|k: int|
            0 <= k < pairs.len() implies pairs_to_map(pairs).dom().contains(
            (#[trigger] pairs[k]).0@,
        ) by {
            if k < pairs.len() - 1 {
                assert(pairs.drop_last()[k] == pairs[k]);
            }
        }
        assert forall|n: Seq<char>|
            #[trigger] pairs_to_map(pairs).dom().contains(n) implies exists|k: int|
            0 <= k < pairs.len() && (#[trigger] pairs[k]).0@ == n by {
            if n == pairs.last().0@ {
                assert(pairs[pairs.len() - 1].0@ == n);
            } else {
                assert(pairs_to_map(pairs.drop_last()).dom().contains(n));
                let k = choose|k: int|
                    0 <= k < pairs.drop_last().len() && (#[trigger] pairs.drop_last()[k]).0@ == n;
                assert(pairs.drop_last()[k] == pairs[k]);
                assert(pairs[k].0@ == n);
            }
        }
    }
}

/// When no pair after index `i` repeats the name of the pair at `i`,
/// that pair decides the map's value for its name.
pub proof fn lemma_pairs_to_map_last_match(pairs: Seq<(String, u64)>, i: int)
    requires
        0 <= i < pairs.len(),
        forall|j: int| i < j < pairs.len() ==> (#[trigger] pairs[j]).0@ != pairs[i].0@,
    ensures
        pairs_to_map(pairs).dom().contains(pairs[i].0@),
        pairs_to_map(pairs)[pairs[i].0@] == pairs[i].1 as int,
    decreases pairs.len(),
{
    if i < pairs.len() - 1 {
        assert(pairs[pairs.len() - 1].0@ != pairs[i].0@);
        assert(pairs.drop_last()[i] == pairs[i]);
        assert forall|j: int|
            i < j < pairs.drop_last().len() implies (#[trigger] pairs.drop_last()[j]).0@
            != pairs.drop_last()[i].0@ by {
            assert(pairs.drop_last()[j] == pairs[j]);
        }
        lemma_pairs_to_map_last_match(pairs.drop_last(), i);
    }
}

/// A name carried by no pair is outside the map's domain.
pub proof fn lemma_pairs_to_map_no_match(pairs: Seq<(String, u64)>, n: Seq<char>)
    requires
        forall|j: int| 0 <= j < pairs.len() ==> (#[trigger] pairs[j]).0@ != n,
    ensures
        !pairs_to_map(pairs).dom().contains(n),
    decreases pairs.len(),
{
    if pairs.len() > 0 {
        assert forall|j: int|
            0 <= j < pairs.drop_last().len() implies (#[trigger] pairs.drop_last()[j]).0@ != n by {
            assert(pairs.drop_last()[j] == pairs[j]);
        }
        lemma_pairs_to_map_no_match(pairs.drop_last(), n);
    }
}

/// With all shares positive, every share is bounded by the whole sum.
pub proof fn lemma_share_le_sum(entries: Seq<(Fixed, Stock)>, i: int)
    requires
        all_shares_positive(entries),
        0 <= i < entries.len(),
    ensures
        0 < entries[i].0.spec_units() <= share_sum(entries),
    decreases entries.len(),
{
    if i == entries.len() - 1 {
        lemma_share_sum_nonneg(entries.drop_last());
    } else {
        assert forall|k: int|
            0 <= k < entries.drop_last().len() implies (#[trigger] entries.drop_last()[k]).0.spec_units()
            > 0 by {
            assert(entries.drop_last()[k] == entries[k]);
        }
        assert(entries.drop_last()[i] == entries[i]);
        lemma_share_le_sum(entries.drop_last(), i);
    }
}

/// The sum of positive shares is non-negative.
pub proof fn lemma_share_sum_nonneg(entries: Seq<(Fixed, Stock)>)
    requires
        all_shares_positive(entries),
    ensures
        share_sum(entries) >= 0,
    decreases entries.len(),
{
    if entries.len() > 0 {
        assert forall|k: int|
            0 <= k < entries.drop_last().len() implies (#[trigger] entries.drop_last()[k]).0.spec_units()
            > 0 by {
            assert(entries.drop_last()[k] == entries[k]);
        }
        lemma_share_sum_nonneg(entries.drop_last());
        assert(entries[entries.len() - 1].0.spec_units() > 0);
    }
}

/// The conservative unit target never exceeds the total value itself
/// once the share is bounded by 100% and one unit costs something.
pub proof fn lemma_target_units_le_total(total: int, share: int, price: int)
    requires
        total >= 0,
        0 < share <= HUNDRED_PERCENT_UNITS,
        price >= 1,
    ensures
        0 <= target_units(total, share, price) <= total,
{
    let den = (HUNDRED_PERCENT_UNITS as int) * price;
    assert(den >= 1000000) by (nonlinear_arith)
        requires
            price >= 1,
            den == 1000000 * price,
    ;
    assert(total * share >= 0) by (nonlinear_arith)
        requires
            total >= 0,
            share > 0,
    ;
    assert(total * share <= total * den) by (nonlinear_arith)
        requires
            total >= 0,
            0 < share <= 1000000,
            den == 1000000 * price,
            price >= 1,
    ;
    vstd::arithmetic::div_mod::lemma_div_is_ordered(total * share, total * den, den);
    vstd::arithmetic::div_mod::lemma_div_multiples_vanish(total, den);
    assert(den * total == total * den) by (nonlinear_arith);
    vstd::arithmetic::div_mod::lemma_div_pos_is_pos(total * share, den);
}

} // verus!
