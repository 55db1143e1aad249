//! Verification of clients that claim to be Google's crawler, by a reverse
//! DNS (PTR) lookup through a DNS-over-HTTPS resolver.
pub mod decimal;
pub mod address;
pub mod outcome;
pub mod resolve;
