//! Escrow of a non-fungible asset against a fungible fractional supply,
//! with stake-weighted reservation-price voting, a buyout auction and
//! proposal governance.
pub mod holders;
pub mod laws;
pub mod msg;
pub mod ratio;
pub mod resv;
pub mod saga;
pub mod types;
pub mod vault;
pub mod wide;
