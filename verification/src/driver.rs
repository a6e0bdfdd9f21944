//! The driver seam: the contract any persistence backend meets, and the
//! in-memory reference backend.

use crate::kv::IoError;
use crate::kv::KvMap;
use vstd::prelude::*;

verus! {

/// A persistence backend. It loads and saves the whole key-value mapping
/// against some medium; the store never asks it for anything finer.
pub trait Driver: Sized {
    /// The mapping the backing medium currently holds.
    spec fn medium(&self) -> Map<Seq<char>, Seq<char>>;

    /// Whether this backend is beyond failure: an in-process medium is, a
    /// remote or on-disk one is not.
    spec fn infallible() -> bool;

    /// Produces a full snapshot of the medium — a copy, never a shared view —
    /// without mutating the medium. On a medium failure, reports an I/O error.
    fn load(&self) -> (r: Result<KvMap, IoError>)
        ensures
            r matches Ok(m) ==> m@ == self.medium(),
            Self::infallible() ==> r is Ok,
    ;

    /// Replaces the medium's contents with a copy of the given mapping, whole,
    /// not a merge. On a medium failure, reports an I/O error.
    fn save(&mut self, s: &KvMap) -> (r: Result<(), IoError>)
        ensures
            r is Ok ==> final(self).medium() == s@,
            Self::infallible() ==> r is Ok,
    ;
}

/// A driver that keeps the mapping in process memory: the default backend and
/// the test double. Its data is gone when the driver is dropped.
pub struct MemoryDriver {
    data: KvMap,
}

impl MemoryDriver {
    /// Creates an empty in-memory driver.
    pub fn new() -> (r: MemoryDriver)
        ensures
            r.medium() == Map::<Seq<char>, Seq<char>>::empty(),
    {
        MemoryDriver { data: KvMap::new() }
    }

    /// Creates an in-memory driver already holding the given mapping.
    pub fn from(data: KvMap) -> (r: MemoryDriver)
        ensures
            r.medium() == data@,
    {
        MemoryDriver { data }
    }
}

impl Driver for MemoryDriver {
    closed spec fn medium(&self) -> Map<Seq<char>, Seq<char>> {
        self.data@
    }

    open spec fn infallible() -> bool {
        true
    }

    /// Hands out a deep copy of the internal mapping; never fails.
    fn load(&self) -> (r: Result<KvMap, IoError>) {
        Ok(self.data.clone())
    }

    /// Replaces the internal mapping with a deep copy of `s`; never fails.
    fn save(&mut self, s: &KvMap) -> (r: Result<(), IoError>) {
        self.data = s.clone();
        Ok(())
    }
}

} // verus!
