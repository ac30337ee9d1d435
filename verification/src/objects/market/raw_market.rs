use vstd::prelude::*;

use crate::table::StringMap;

verus! {

/// `rust_decimal::Decimal`, carried as an opaque value: nothing in the
/// library looks inside it.
#[verifier::external_type_specification]
#[verifier::external_body]
pub struct ExDecimal(rust_decimal::Decimal);

/// A UTC instant: whole seconds since the UNIX epoch and the nanoseconds
/// past them (below one second).
#[derive(PartialEq, Eq, Structural, Clone, Copy, Debug)]
pub struct UtcTime {
    pub secs: i64,
    pub nanos: u32,
}

/// An offer as a scanner reports it: the vendor's account number, the amount
/// and the exact decimal price.
pub struct RawListing {
    pub user: u64,
    pub amount: u32,
    pub price: rust_decimal::Decimal,
}

/// An item as a scanner reports it.
pub struct RawItem {
    pub name: String,
    pub time_scanned: UtcTime,
    pub buy: Vec<RawListing>,
    pub sell: Vec<RawListing>,
}

/// A market scan as a scanner reports it, with its items by name.
pub struct RawMarket {
    pub time_scanned: UtcTime,
    pub location: String,
    pub items: StringMap<RawItem>,
}

} // verus!
