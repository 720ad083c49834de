//! An escrow of fungible tokens: the admin deposits amounts for named
//! claimants, and each claimant withdraws what was deposited for them, once.
//!
//! The library is the contract's rules as a state machine. A call takes the
//! contract's state and answers with a rejection, which changes nothing, or
//! with the effects that the host has to carry out: whose authorization to
//! verify, which funds to move, and whether to renew the storage instance.

pub mod contract;
pub mod error;
pub mod identity;
pub mod laws;
pub mod model;
pub mod ttl;
