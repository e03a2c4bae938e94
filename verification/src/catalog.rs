use crate::parse::is_sentinel;
use crate::parse::is_sentinel_spec;
use crate::parse::parse_price;
use crate::parse::parse_price_spec;
use crate::product::Product;
use vstd::prelude::*;

verus! {

/// Where the catalog entry loop stands.
pub enum BuildState {
    /// waiting for a product name, or for the terminator
    AwaitingName,
    /// holding a product name, waiting for its price
    AwaitingPrice { name: String },
    /// the terminator arrived
    Finished,
}

/// The catalog entry loop: names and prices arrive one trimmed line at
/// a time, and products accumulate until the terminator line.
pub struct CatalogBuilder {
    pub state: BuildState,
    pub catalog: Vec<Product>,
}

impl CatalogBuilder {
    /// A fresh builder: no products yet, waiting for the first name.
    pub fn new() -> (b: CatalogBuilder)
        ensures
            b.state is AwaitingName,
            b.catalog@.len() == 0,
    {
        CatalogBuilder { state: BuildState::AwaitingName, catalog: Vec::new() }
    }

    /// Takes one name line. The terminator finishes the build with the
    /// catalog exactly as it was; any other line, even an empty one,
    /// becomes the pending product name.
    pub fn give_name(&mut self, line: String)
        requires
            old(self).state is AwaitingName,
        ensures
            final(self).catalog == old(self).catalog,
            is_sentinel_spec(line@) ==> final(self).state is Finished,
            !is_sentinel_spec(line@) ==> (final(self).state matches BuildState::AwaitingPrice {
                name,
            } && name == line),
    {
        if is_sentinel(line.as_str()) {
            self.state = BuildState::Finished;
        } else {
            self.state = BuildState::AwaitingPrice { name: line };
        }
    }

    /// Takes one price line for the pending name. A line that is not a
    /// well-formed price changes nothing, so the caller asks again; a
    /// well-formed one appends the product and awaits the next name.
    pub fn give_price(&mut self, line: &str)
        requires
            old(self).state is AwaitingPrice,
        ensures
            parse_price_spec(line@) is None ==> *final(self) == *old(self),
            old(self).state matches BuildState::AwaitingPrice { name } ==> (parse_price_spec(line@)
                matches Some(cents) ==> {
                &&& final(self).state is AwaitingName
                &&& final(self).catalog@ == old(self).catalog@.push(
                    (Product { name, price: cents }),
                )
            }),
    {
        match parse_price(line) {
            Some(cents) => {
                let pending = match &self.state {
                    BuildState::AwaitingPrice { name } => name.clone(),
                    _ => String::new(),
                };
                self.catalog.push(Product { name: pending, price: cents });
                self.state = BuildState::AwaitingName;
            },
            None => {},
        }
    }

    /// Whether the terminator has arrived.
    pub fn is_finished(&self) -> (r: bool)
        ensures
            r == (self.state is Finished),
    {
        match &self.state {
            BuildState::Finished => true,
            _ => false,
        }
    }

    /// Whether a price line is expected next.
    pub fn awaiting_price(&self) -> (r: bool)
        ensures
            r == (self.state is AwaitingPrice),
    {
        match &self.state {
            BuildState::AwaitingPrice { .. } => true,
            _ => false,
        }
    }

    /// How many products have been entered so far.
    pub fn item_count(&self) -> (r: usize)
        ensures
            r == self.catalog@.len(),
    {
        self.catalog.len()
    }

    /// Hands the finished catalog over.
    pub fn into_catalog(self) -> (v: Vec<Product>)
        ensures
            v == self.catalog,
    {
        self.catalog
    }
}

} // verus!
