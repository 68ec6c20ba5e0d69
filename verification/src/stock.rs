//! One held unit of an asset at its recorded price.

use crate::error::PortfolioError;
use crate::fixed::Fixed;
use vstd::prelude::*;

verus! {

/// One unit of an asset: its name and the price it was recorded at.
///
/// The validating constructor refuses a negative price, so a
/// well-formed stock always carries a non-negative one.
#[derive(Debug)]
pub struct Stock {
    name: String,
    current_price: Fixed,
}

impl Stock {
    /// The asset's name, as a sequence of characters.
    pub closed spec fn spec_name(self) -> Seq<char> {
        self.name@
    }

    /// The recorded price, in `Fixed` units (ten-thousandths).
    pub closed spec fn spec_price(self) -> int {
        self.current_price.spec_units()
    }

    /// A stock is well formed when its price is non-negative; the
    /// constructor refuses anything else.
    pub open spec fn wf(self) -> bool {
        self.spec_price() >= 0
    }

    /// Builds a stock, refusing a negative price.
    pub fn new(name: &str, price: Fixed) -> (r: Result<Stock, PortfolioError>)
        ensures
            r is Ok <==> price.spec_units() >= 0,
            r is Err ==> r->Err_0 == PortfolioError::InvalidPrice,
            r is Ok ==> r->Ok_0.spec_name() == name@ && r->Ok_0.spec_price() == price.spec_units()
                && r->Ok_0.wf(),
    {
        if price.units() < 0 {
            Err(PortfolioError::InvalidPrice)
        } else {
            Ok(Stock { name: name.to_owned(), current_price: price })
        }
    }

    /// The recorded price.
    pub fn current_price(&self) -> (r: Fixed)
        ensures
            r.spec_units() == self.spec_price(),
    {
        self.current_price
    }

    /// The asset's name.
    pub fn name(&self) -> (r: &str)
        ensures
            r@ == self.spec_name(),
    {
        self.name.as_str()
    }
}

/// Whether two string slices hold the same characters.
pub(crate) fn str_equal(a: &str, b: &str) -> (r: bool)
    ensures
        r == (a@ == b@),
{
    let a_owned: String = a.to_owned();
    let b_owned: String = b.to_owned();
    a_owned == b_owned
}

} // verus!
