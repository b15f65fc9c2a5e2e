//! A bounded pool of MEV Share bundles, and the `mev_sendBundle` call over it.
//!
//! A bundle that is sent is checked against the pool's limit and against the latest block of the
//! chain, and waits in the pool until it is removed by its hash. Reading the chain is left to the
//! caller, who hands in what it reported.

pub mod bundle;
pub mod laws;
pub mod lock;
pub mod mev;
pub mod pending;
pub mod pool;
pub mod share;
