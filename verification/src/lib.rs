//! Ballot admission for a vote-collection service: the catalog of candidates
//! and categories, the storage keys of recorded ballots, the request sent to
//! the signature oracle and the reading of its reply, a keyed ballot store,
//! and the admission state machine that ties them together.

pub mod text;
pub mod key;
pub mod query;
pub mod error;
pub mod config;
pub mod data;
pub mod store;
pub mod admission;
pub mod interleaving;
