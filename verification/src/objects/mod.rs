pub mod market;
pub mod database;
pub mod raw_market;
