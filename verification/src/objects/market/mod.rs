pub mod market;
pub mod helper;
pub mod raw_market;
