//! A [`Location`] pairs an address with a store handle; it is the unit
//! normally passed around by callers, and it forwards every capability
//! operation to the store.

use vstd::prelude::*;

use crate::address::Address;
use crate::address::Existence;
use crate::address::PathAddress;
use crate::address::SubAddress;
use crate::store::Addressable;
use crate::store::AddressableInsert;
use crate::store::AddressableList;
use crate::store::AddressableQuery;
use crate::store::AddressableRead;
use crate::store::AddressableWrite;
use crate::store::Store;

verus! {

/// A pair of a store and an address. Pass this around, traverse the store
/// with it, and get or change values through it.
pub struct Location<Addr: Address, S: Store> {
    pub store: S,
    pub address: Addr,
}

impl<Addr: Address, S: Store> Location<Addr, S> {
    /// Typically it is easier to use `store.sub(address)`.
    pub fn new(address: Addr, store: S) -> (r: Self)
        ensures
            r.address == address,
            r.store == store,
    {
        Location { store, address }
    }

    /// Type-safe navigation one address part further in.
    pub fn sub<AR: Address, A2>(self, address: A2) -> (r: Location<AR, S>)
        where Addr: SubAddress<A2, Output = AR>
        requires
            self.address.sub_ok(&address),
        ensures
            self.address.sub_rel(&address, &r.address),
            r.store == self.store,
    {
        Location::new(self.address.sub(address), self.store)
    }

    /// String-based navigation, for stores whose addresses parse path
    /// strings.
    pub fn path<A: Address, E>(self, p: &str) -> (r: Result<Location<A, S>, E>)
        where Addr: PathAddress<Output = A, Error = E>
        ensures
            match r {
                Ok(loc) => self.address.path_ok(p@) && self.address.path_rel(p@, &loc.address)
                    && loc.store == self.store,
                Err(e) => !self.address.path_ok(p@) && self.address.path_err(p@, &e),
            },
    {
        match self.address.path(p) {
            Ok(address) => Ok(Location::new(address, self.store)),
            Err(e) => Err(e),
        }
    }

    /// Get a value of the default type for this address.
    pub fn getv<V: View>(&self) -> (r: Result<Option<V>, S::Error>)
        where S: Addressable<Addr, DefaultValue = V> + AddressableRead<V, Addr>
        ensures
            match r {
                Ok(Some(v)) => self.store.read_ok(&self.address) && self.store.read_view(
                    &self.address,
                ) == Some(v@),
                Ok(None) => self.store.read_ok(&self.address) && AddressableRead::<
                    V,
                    Addr,
                >::read_view(&self.store, &self.address) is None,
                Err(e) => !AddressableRead::<V, Addr>::read_ok(&self.store, &self.address)
                    && self.store.read_err(&self.address, &e),
            },
    {
        self.get()
    }

    /// Write a value of the default type for this address.
    pub fn writev<V: View>(&mut self, v: &Option<V>) -> (r: Result<(), S::Error>)
        where S: Addressable<Addr, DefaultValue = V> + AddressableWrite<V, Addr>
        ensures
            final(self).address == old(self).address,
            match r {
                Ok(()) => old(self).store.write_ok(&old(self).address, v) && old(
                    self,
                ).store.write_post(&old(self).address, v, &final(self).store),
                Err(e) => !old(self).store.write_ok(&old(self).address, v) && old(
                    self,
                ).store.write_err(&old(self).address, v, &e, &final(self).store),
            },
    {
        self.write(v)
    }

    /// Get a value of a particular type from the store; `None` means the
    /// value does not exist.
    pub fn get<Value: View>(&self) -> (r: Result<Option<Value>, S::Error>)
        where S: AddressableRead<Value, Addr>
        ensures
            match r {
                Ok(Some(v)) => self.store.read_ok(&self.address) && self.store.read_view(
                    &self.address,
                ) == Some(v@),
                Ok(None) => self.store.read_ok(&self.address) && self.store.read_view(
                    &self.address,
                ) is None,
                Err(e) => !self.store.read_ok(&self.address) && self.store.read_err(
                    &self.address,
                    &e,
                ),
            },
    {
        self.store.read(&self.address)
    }

    /// Write a value of a particular type to the store; `None` deletes.
    pub fn write<Value: View>(&mut self, value: &Option<Value>) -> (r: Result<(), S::Error>)
        where S: AddressableWrite<Value, Addr>
        ensures
            final(self).address == old(self).address,
            match r {
                Ok(()) => old(self).store.write_ok(&old(self).address, value) && old(
                    self,
                ).store.write_post(&old(self).address, value, &final(self).store),
                Err(e) => !old(self).store.write_ok(&old(self).address, value) && old(
                    self,
                ).store.write_err(&old(self).address, value, &e, &final(self).store),
            },
    {
        self.store.write(&self.address, value)
    }

    /// Check existence at this address.
    pub fn exists_at(&self) -> (r: Result<bool, S::Error>)
        where S: AddressableRead<Existence, Addr>
        ensures
            match r {
                Ok(b) => self.store.read_ok(&self.address) && (b <==> AddressableRead::<
                    Existence,
                    Addr,
                >::read_view(&self.store, &self.address) is Some),
                Err(e) => !AddressableRead::<Existence, Addr>::read_ok(
                    &self.store,
                    &self.address,
                ) && self.store.read_err(&self.address, &e),
            },
    {
        match self.get::<Existence>() {
            Ok(v) => Ok(v.is_some()),
            Err(e) => Err(e),
        }
    }

    /// List the children of this location, as pairs of the added part and
    /// the full child address.
    pub fn list(&self) -> (r: Result<Vec<(S::AddedAddress, S::ItemAddress)>, S::Error>)
        where S: AddressableList<Addr>
        ensures
            match r {
                Ok(v) => self.store.list_ok(&self.address) && v@.len() == self.store.list_view(
                    &self.address,
                ).len() && forall|i: int|
                    0 <= i < v@.len() ==> (#[trigger] v@[i].0@, v@[i].1@)
                        == self.store.list_view(&self.address)[i],
                Err(e) => !self.store.list_ok(&self.address) && self.store.list_err(
                    &self.address,
                    &e,
                ),
            },
    {
        self.store.list(&self.address)
    }

    /// Append values to the container at this location, yielding the new
    /// children's addresses.
    pub fn insert<Value: View>(&mut self, values: Vec<Value>) -> (r: Result<
        Vec<(S::AddedAddress, S::ItemAddress)>,
        S::Error,
    >)
        where S: AddressableInsert<Value, Addr>
        ensures
            final(self).address == old(self).address,
            match r {
                Ok(v) => old(self).store.insert_ok(
                    &old(self).address,
                    Seq::new(values@.len(), |i: int| values@[i]@),
                ) && old(self).store.insert_post(
                    &old(self).address,
                    Seq::new(values@.len(), |i: int| values@[i]@),
                    &final(self).store,
                    Seq::new(v@.len(), |i: int| (v@[i].0@, v@[i].1@)),
                ),
                Err(e) => !old(self).store.insert_ok(
                    &old(self).address,
                    Seq::new(values@.len(), |i: int| values@[i]@),
                ) && old(self).store.insert_err(
                    &old(self).address,
                    Seq::new(values@.len(), |i: int| values@[i]@),
                    &e,
                    &final(self).store,
                ),
            },
    {
        self.store.insert(&self.address, values)
    }

    /// Run a backend-defined query at this location.
    pub fn query<Query: View>(&self, query: Query) -> (r: Result<
        Vec<(S::AddedAddress, S::ItemAddress)>,
        S::Error,
    >)
        where S: AddressableQuery<Query, Addr>
        ensures
            match r {
                Ok(v) => self.store.query_ok(&self.address, query@) && v@.len()
                    == self.store.query_view(&self.address, query@).len() && forall|i: int|
                    0 <= i < v@.len() ==> (#[trigger] v@[i].0@, v@[i].1@)
                        == self.store.query_view(&self.address, query@)[i],
                Err(e) => !self.store.query_ok(&self.address, query@) && self.store.query_err(
                    &self.address,
                    query@,
                    &e,
                ),
            },
    {
        self.store.query(&self.address, query)
    }
}

} // verus!
