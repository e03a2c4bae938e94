use vstd::prelude::*;

verus! {

/// One entry of the catalog: a product name and its price in cents.
///
/// A price of 1050 stands for $10.50. Prices are non-negative by
/// construction; the parser rejects anything that is not a plain
/// decimal amount.
pub struct Product {
    pub name: String,
    pub price: u64,
}

} // verus!
