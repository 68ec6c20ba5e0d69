//! The validated target allocation.

use crate::error::PortfolioError;
use crate::fixed::Fixed;
use crate::fixed::HUNDRED_PERCENT_UNITS;
use crate::model::all_shares_positive;
use crate::model::all_targets_wf;
use crate::model::contains_name;
use crate::model::names_unique;
use crate::model::share_sum;
use crate::model::valid_entries;
use crate::stock::str_equal;
use crate::stock::Stock;
use vstd::prelude::*;

verus! {

/// The distribution of assets a portfolio is aiming at, e.g.
/// 40% META / 60% APPL: an ordered sequence of (share, stock) pairs.
///
/// Irrepresentable nonsense is rejected at construction: the shares of
/// a value of this type sum to exactly 100%, each share is strictly
/// positive, and no asset is named twice.
#[derive(Debug)]
pub struct PortfolioTarget {
    targets: Vec<(Fixed, Stock)>,
}

/// Which failure the validating constructor reports for the given
/// entries: the sum is checked first, then positivity, then
/// duplicates.
pub open spec fn allocation_error(entries: Seq<(Fixed, Stock)>) -> PortfolioError {
    if share_sum(entries) != HUNDRED_PERCENT_UNITS {
        PortfolioError::AllocationSumMismatch
    } else if !all_shares_positive(entries) {
        PortfolioError::AllocationShareNotPositive
    } else {
        PortfolioError::AllocationDuplicateName
    }
}

impl PortfolioTarget {
    /// The (share, stock) pairs, in the order they were supplied.
    pub closed spec fn entries(self) -> Seq<(Fixed, Stock)> {
        self.targets@
    }

    /// What every constructed allocation guarantees: validated shares
    /// and well-formed targeted stocks.
    pub open spec fn valid(self) -> bool {
        valid_entries(self.entries()) && all_targets_wf(self.entries())
    }

    /// Builds the degenerate allocation that aims 100% at one stock.
    pub fn new(stock: Stock) -> (r: PortfolioTarget)
        requires
            stock.wf(),
        ensures
            r.valid(),
            r.entries().len() == 1,
            r.entries()[0].0.spec_units() == HUNDRED_PERCENT_UNITS,
            r.entries()[0].1 == stock,
    {
        let mut targets: Vec<(Fixed, Stock)> = Vec::new();
        targets.push((Fixed::from_units(HUNDRED_PERCENT_UNITS), stock));
        proof {
            assert(targets@.drop_last() =~= Seq::<(Fixed, Stock)>::empty());
            assert(share_sum(Seq::<(Fixed, Stock)>::empty()) == 0);
            assert(share_sum(targets@) == HUNDRED_PERCENT_UNITS);
        }
        PortfolioTarget { targets }
    }

    /// Validates a sequence of (share, stock) pairs and builds the
    /// allocation, or reports exactly why it cannot: the shares do not
    /// sum to 100%, some share is not strictly positive, or an asset
    /// is named twice.
    pub fn try_from_vec(stocks: Vec<(Fixed, Stock)>) -> (r: Result<
        PortfolioTarget,
        PortfolioError,
    >)
        requires
            all_targets_wf(stocks@),
        ensures
            r is Ok <==> valid_entries(stocks@),
            r is Ok ==> r->Ok_0.entries() == stocks@ && r->Ok_0.valid(),
            r is Err ==> r->Err_0 == allocation_error(stocks@),
    {
        let n = stocks.len();

        // The shares must sum to exactly 100%.
        let mut sum: i128 = 0;
        let mut i: usize = 0;
        while i < n
            invariant
                n == stocks@.len(),
                0 <= i <= n,
                sum as int == share_sum(stocks@.take(i as int)),
                i as int * (i64::MIN as int) <= sum as int <= i as int * (i64::MAX as int),
            decreases n - i,
        {
            let share: i64 = stocks[i].0.units();
            proof {
                assert(stocks@.take(i as int + 1).drop_last() =~= stocks@.take(i as int));
                assert(stocks@.take(i as int + 1).last() == stocks@[i as int]);
            }
            sum = sum + share as i128;
            i = i + 1;
        }
        proof {
            assert(stocks@.take(n as int) =~= stocks@);
        }
        if sum != HUNDRED_PERCENT_UNITS as i128 {
            return Err(PortfolioError::AllocationSumMismatch);
        }

        // Every share must be strictly positive.
        let mut j: usize = 0;
        while j < n
            invariant
                n == stocks@.len(),
                0 <= j <= n,
                share_sum(stocks@) == HUNDRED_PERCENT_UNITS,
                forall|k: int| 0 <= k < j ==> #[trigger] stocks@[k].0.spec_units() > 0,
            decreases n - j,
        {
            if stocks[j].0.units() <= 0 {
                proof {
                    assert(stocks@[j as int].0.spec_units() <= 0);
                    assert(!all_shares_positive(stocks@));
                }
                return Err(PortfolioError::AllocationShareNotPositive);
            }
            j = j + 1;
        }

        // No asset may be named twice.
        let mut a: usize = 0;
        while a < n
            invariant
                n == stocks@.len(),
                0 <= a <= n,
                share_sum(stocks@) == HUNDRED_PERCENT_UNITS,
                all_shares_positive(stocks@),
                forall|p: int, q: int|
                    0 <= p < q < n && p < a ==> (#[trigger] stocks@[p].1.spec_name()) != (
                    #[trigger] stocks@[q].1.spec_name()),
            decreases n - a,
        {
            let mut b: usize = a + 1;
            while b < n
                invariant
                    n == stocks@.len(),
                    0 <= a < b <= n,
                    share_sum(stocks@) == HUNDRED_PERCENT_UNITS,
                    all_shares_positive(stocks@),
                    forall|p: int, q: int|
                        0 <= p < q < n && p < a ==> (#[trigger] stocks@[p].1.spec_name()) != (
                        #[trigger] stocks@[q].1.spec_name()),
                    forall|q: int|
                        a < q < b ==> (#[trigger] stocks@[q].1.spec_name())
                            != stocks@[a as int].1.spec_name(),
                decreases n - b,
            {
                if str_equal(stocks[a].1.name(), stocks[b].1.name()) {
                    proof {
                        assert(stocks@[a as int].1.spec_name() == stocks@[b as int].1.spec_name());
                        assert(!names_unique(stocks@));
                    }
                    return Err(PortfolioError::AllocationDuplicateName);
                }
                b = b + 1;
            }
            a = a + 1;
        }

        Ok(PortfolioTarget { targets: stocks })
    }

    /// Whether some entry of the allocation targets the asset `name`.
    pub fn contains_key(&self, name: &str) -> (r: bool)
        ensures
            r == contains_name(self.entries(), name@),
    {
        let n = self.targets.len();
        let mut i: usize = 0;
        while i < n
            invariant
                n == self.targets@.len(),
                0 <= i <= n,
                forall|k: int| 0 <= k < i ==> (#[trigger] self.targets@[k].1.spec_name()) != name@,
            decreases n - i,
        {
            if str_equal(self.targets[i].1.name(), name) {
                return true;
            }
            i = i + 1;
        }
        false
    }

    /// The (share, stock) pairs, in the order they were supplied.
    pub fn targets(&self) -> (r: &Vec<(Fixed, Stock)>)
        ensures
            r@ == self.entries(),
    {
        &self.targets
    }
}

} // verus!
