//! A single in-memory cell as a store: one optional value, addressed by
//! the unique root address.

use vstd::prelude::*;

use crate::address::UniqueRootAddress;
use crate::store::Addressable;
use crate::store::AddressableRead;
use crate::store::AddressableWrite;
use crate::store::Store;

verus! {

/// Errors of the memory cell store. There are none: every operation on the
/// cell succeeds.
#[derive(Debug, PartialEq, Eq)]
pub struct MemoryCellStoreError;

/// A store holding a single optional value at the root address.
#[derive(Debug, PartialEq, Eq)]
pub struct MemoryCellStore<V> {
    pub value: Option<V>,
}

impl<V: Clone> Clone for MemoryCellStore<V> {
    fn clone(&self) -> Self {
        MemoryCellStore { value: self.value.clone() }
    }
}

impl<V> MemoryCellStore<V> {
    /// A cell holding `value`.
    pub fn new(value: Option<V>) -> (r: Self)
        ensures
            r.value == value,
    {
        MemoryCellStore { value }
    }
}

impl<V> Addressable<UniqueRootAddress> for MemoryCellStore<V> {
    type DefaultValue = V;
}

impl<V> Store for MemoryCellStore<V> {
    type Error = MemoryCellStoreError;

    type RootAddress = UniqueRootAddress;

    open spec fn root_rel(&self, a: &UniqueRootAddress) -> bool {
        true
    }

    fn root_address(&self) -> (r: UniqueRootAddress) {
        UniqueRootAddress
    }
}

impl AddressableRead<String, UniqueRootAddress> for MemoryCellStore<String> {
    open spec fn read_ok(&self, addr: &UniqueRootAddress) -> bool {
        true
    }

    open spec fn read_view(&self, addr: &UniqueRootAddress) -> Option<Seq<char>> {
        match self.value {
            Some(s) => Some(s@),
            None => None,
        }
    }

    open spec fn read_err(&self, addr: &UniqueRootAddress, e: &MemoryCellStoreError) -> bool {
        false
    }

    fn read(&self, addr: &UniqueRootAddress) -> (r: Result<Option<String>, MemoryCellStoreError>) {
        match &self.value {
            Some(s) => Ok(Some(s.clone())),
            None => Ok(None),
        }
    }
}

impl AddressableWrite<String, UniqueRootAddress> for MemoryCellStore<String> {
    open spec fn write_ok(&self, addr: &UniqueRootAddress, value: &Option<String>) -> bool {
        true
    }

    open spec fn write_post(
        &self,
        addr: &UniqueRootAddress,
        value: &Option<String>,
        new: &Self,
    ) -> bool {
        match (value, new.value) {
            (Some(s), Some(t)) => s@ == t@,
            (None, None) => true,
            _ => false,
        }
    }

    open spec fn write_err(
        &self,
        addr: &UniqueRootAddress,
        value: &Option<String>,
        e: &MemoryCellStoreError,
        new: &Self,
    ) -> bool {
        false
    }

    fn write(&mut self, addr: &UniqueRootAddress, value: &Option<String>) -> (r: Result<
        (),
        MemoryCellStoreError,
    >) {
        match value {
            Some(s) => {
                self.value = Some(s.clone());
            },
            None => {
                self.value = None;
            },
        }
        Ok(())
    }
}

} // verus!
