//! Market data service for Vio: market scans, item histories, API keys and
//! request rate limiting, with the server's decisions proved against their
//! contracts.
use vstd::prelude::*;

pub mod objects;
pub mod routes;
pub mod settings;
pub mod table;
pub mod text;

verus! {

} // verus!
