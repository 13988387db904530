//! Historical index of contract state: per-field versioned histories, the
//! per-contract record built from them, their byte encoding, the decisions of
//! the persistent store and of the block ingestion pipeline.
use vstd::prelude::*;

pub mod felt;
pub mod history;
pub mod contract;
pub mod codec;
pub mod error;
pub mod store;
pub mod ingest;
pub mod pedersen;

verus! {

} // verus!
