//! Benchmarking of key-value stores: workloads are synthesized from a
//! declarative generator, resampled against keys known to exist, replayed
//! against a storage backend, and reduced to latency statistics.
use vstd::prelude::*;

pub mod workload;
mod random;
mod timer;
pub mod stats;

verus! {

/// An error reported by a storage backend, carrying the backend's own text.
#[derive(Debug, Clone, PartialEq, Eq)]
pub enum Error {
    DBError(String),
}

/// The capability contract of a storage backend: point lookup, existence
/// check, and atomic batches of inserts and deletes.
pub trait KeyValueStore<'a>: std::marker::Sized {
    type Batch: Batch;

    fn new(path: &str) -> Self;

    fn get(&self, key: &[u8]) -> Result<Option<Vec<u8>>, Error>;

    fn key_exists(&self, key: &[u8]) -> Result<bool, Error>;

    fn batch(&self) -> Result<Self::Batch, Error>;
}

/// A batch of writes that a backend applies atomically on `commit`.
pub trait Batch: std::marker::Sized {
    fn put(&mut self, key: &[u8], value: &[u8]) -> Result<(), Error>;

    fn delete(&mut self, key: &[u8]) -> Result<(), Error>;

    fn commit(self) -> Result<(), Error>;
}

} // verus!
