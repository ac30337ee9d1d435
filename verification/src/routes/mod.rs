pub mod ratelimiter;
pub mod key;
pub mod errors;
pub mod apiv1;
