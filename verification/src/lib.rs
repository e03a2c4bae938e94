//! An interactive shopping assistant, as a verified library.
//!
//! The library holds the logic of the workflow: parsing the user's
//! numeric input, building the product catalog, planning which items fit
//! a budget (cheapest first), deciding affordability over the whole
//! catalog, simulating a payment-method choice, and formatting the
//! receipt. Console and file I/O live outside, in the application crate,
//! which hands the library plain values and takes plain values back.
//!
//! Prices and budgets are amounts of money in cents, held as `u64`.

pub mod catalog;
pub mod money;
pub mod parse;
pub mod payment;
pub mod planner;
pub mod product;
pub mod receipt;
