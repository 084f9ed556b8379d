//! A concurrent search for vanity wallet addresses: candidate seed phrases are
//! generated at random, derived into addresses by a bounded pool of worker
//! slots, and filtered by a pure match selector. This crate holds the verified
//! core: the selector strategies, the pattern-table loader, the slot-token
//! pipeline state machine, and the result sink's bookkeeping. The derivation
//! cryptography itself is an external, opaque function reached through a few
//! trusted wrappers.

pub mod address;
pub mod candidate;
pub mod pipeline;
pub mod selector;
pub mod sink;
pub mod table;
pub mod wallet;
