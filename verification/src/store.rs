//! The capability contract: the operation set a store may support per
//! address and value type. A backend implements the traits for exactly the
//! pairs it understands; wrappers delegate and inherit them.

use vstd::prelude::*;

use crate::address::Address;
use crate::address::BranchOrLeaf;
use crate::address::PathAddress;
use crate::location::Location;

verus! {

/// Main store driver: what every backend must provide.
pub trait Store: Sized {
    type Error;

    type RootAddress: Address;

    /// What it means for `a` to address this store's root.
    spec fn root_rel(&self, a: &Self::RootAddress) -> bool;

    /// The address of the store's root.
    fn root_address(&self) -> (r: Self::RootAddress)
        ensures
            self.root_rel(&r),
    ;
}

/// Declares that a store understands addresses of type `A`, and which
/// value type an address of that type holds by default.
pub trait Addressable<A: Address>: Store {
    type DefaultValue;
}

/// Navigation helpers shared by all stores.
pub trait StoreEx: Store + Clone {
    /// The location of an arbitrary address in this store.
    fn sub<Addr: Address>(&self, addr: Addr) -> (r: Location<Addr, Self>)
        ensures
            r.address == addr,
    ;

    /// The location of the store's root.
    fn root(&self) -> (r: Location<Self::RootAddress, Self>)
        ensures
            self.root_rel(&r.address),
    ;

    /// The location a path string denotes, parsed from the store's root.
    fn path<Addr: Address, E>(&self, p: &str) -> (r: Result<Location<Addr, Self>, E>) where
        Self::RootAddress: PathAddress<Output = Addr, Error = E>,

        ensures
            match r {
                Ok(loc) => exists|root: Self::RootAddress|
                    self.root_rel(&root) && (#[trigger] root.path_ok(p@)) && root.path_rel(
                        p@,
                        &loc.address,
                    ),
                Err(e) => exists|root: Self::RootAddress|
                    self.root_rel(&root) && !(#[trigger] root.path_ok(p@)) && root.path_err(
                        p@,
                        &e,
                    ),
            },
    ;
}

impl<S: Store + Clone> StoreEx for S {
    fn sub<Addr: Address>(&self, addr: Addr) -> (r: Location<Addr, Self>) {
        Location::new(addr, self.clone())
    }

    fn root(&self) -> (r: Location<Self::RootAddress, Self>) {
        Location::new(self.root_address(), self.clone())
    }

    fn path<Addr: Address, E>(&self, p: &str) -> (r: Result<Location<Addr, Self>, E>) where
        Self::RootAddress: PathAddress<Output = Addr, Error = E>,
    {
        let root = self.root();
        let ghost root_addr = root.address;
        match root.path(p) {
            Ok(loc) => {
                proof {
                    assert(self.root_rel(&root_addr) && root_addr.path_ok(p@)
                        && root_addr.path_rel(p@, &loc.address));
                }
                Ok(loc)
            },
            Err(e) => {
                proof {
                    assert(self.root_rel(&root_addr) && !root_addr.path_ok(p@)
                        && root_addr.path_err(p@, &e));
                }
                Err(e)
            },
        }
    }
}

/// Reading a `Value` at an address. Absence is a legitimate `Ok(None)`,
/// never an error.
pub trait AddressableRead<Value: View, A: Address>: Store {
    /// Whether a read at `addr` succeeds.
    spec fn read_ok(&self, addr: &A) -> bool;

    /// What a successful read returns, as a view.
    spec fn read_view(&self, addr: &A) -> Option<Value::V>;

    /// What it means for `e` to describe a failed read.
    spec fn read_err(&self, addr: &A, e: &Self::Error) -> bool;

    fn read(&self, addr: &A) -> (r: Result<Option<Value>, Self::Error>)
        ensures
            match r {
                Ok(Some(v)) => self.read_ok(addr) && self.read_view(addr) == Some(v@),
                Ok(None) => self.read_ok(addr) && self.read_view(addr) is None,
                Err(e) => !self.read_ok(addr) && self.read_err(addr, &e),
            },
    ;
}

/// Writing a `Value` at an address: `Some` upserts, `None` deletes.
pub trait AddressableWrite<Value: View, A: Address>: Store {
    /// Whether the write succeeds against this store state.
    spec fn write_ok(&self, addr: &A, value: &Option<Value>) -> bool;

    /// How a successful write changes the store.
    spec fn write_post(&self, addr: &A, value: &Option<Value>, new: &Self) -> bool;

    /// What it means for `e` to describe a failed write that left the store
    /// as `new`.
    spec fn write_err(&self, addr: &A, value: &Option<Value>, e: &Self::Error, new: &Self) -> bool;

    fn write(&mut self, addr: &A, value: &Option<Value>) -> (r: Result<(), Self::Error>)
        ensures
            match r {
                Ok(()) => old(self).write_ok(addr, value) && old(self).write_post(
                    addr,
                    value,
                    final(self),
                ),
                Err(e) => !old(self).write_ok(addr, value) && old(self).write_err(
                    addr,
                    value,
                    &e,
                    final(self),
                ),
            },
    ;
}

/// Enumerating the direct children of a container address, as pairs of the
/// added part and the full child address.
pub trait AddressableList<ListAddr: Address>: Store {
    /// The "added" part of a child address (filename in the directory, key
    /// of the map).
    type AddedAddress: View;

    /// The full address of a child.
    type ItemAddress: Address + View;

    /// Whether `addr` denotes a listable container here.
    spec fn list_ok(&self, addr: &ListAddr) -> bool;

    /// The listing, as views, in enumeration order.
    spec fn list_view(&self, addr: &ListAddr) -> Seq<
        (<Self::AddedAddress as View>::V, <Self::ItemAddress as View>::V),
    >;

    /// What it means for `e` to describe a failed listing.
    spec fn list_err(&self, addr: &ListAddr, e: &Self::Error) -> bool;

    fn list(&self, addr: &ListAddr) -> (r: Result<
        Vec<(Self::AddedAddress, Self::ItemAddress)>,
        Self::Error,
    >)
        ensures
            match r {
                Ok(v) => self.list_ok(addr) && v@.len() == self.list_view(addr).len()
                    && forall|i: int|
                    0 <= i < v@.len() ==> (#[trigger] v@[i].0@, v@[i].1@) == self.list_view(
                        addr,
                    )[i],
                Err(e) => !self.list_ok(addr) && self.list_err(addr, &e),
            },
    ;
}

/// Appending a batch of values to a container address, yielding the new
/// children's addresses in order.
pub trait AddressableInsert<Value: View, ListAddr: Address>: AddressableList<ListAddr> {
    /// Whether the insert succeeds against this store state.
    spec fn insert_ok(&self, addr: &ListAddr, items: Seq<Value::V>) -> bool;

    /// How a successful insert changes the store and which pairs it yields.
    spec fn insert_post(
        &self,
        addr: &ListAddr,
        items: Seq<Value::V>,
        new: &Self,
        pairs: Seq<(<Self::AddedAddress as View>::V, <Self::ItemAddress as View>::V)>,
    ) -> bool;

    /// What it means for `e` to describe a failed insert that left the
    /// store as `new`.
    spec fn insert_err(
        &self,
        addr: &ListAddr,
        items: Seq<Value::V>,
        e: &Self::Error,
        new: &Self,
    ) -> bool;

    fn insert(&mut self, addr: &ListAddr, items: Vec<Value>) -> (r: Result<
        Vec<(Self::AddedAddress, Self::ItemAddress)>,
        Self::Error,
    >)
        ensures
            match r {
                Ok(v) => old(self).insert_ok(addr, Seq::new(items@.len(), |i: int| items@[i]@))
                    && old(self).insert_post(
                    addr,
                    Seq::new(items@.len(), |i: int| items@[i]@),
                    final(self),
                    Seq::new(v@.len(), |i: int| (v@[i].0@, v@[i].1@)),
                ),
                Err(e) => !old(self).insert_ok(
                    addr,
                    Seq::new(items@.len(), |i: int| items@[i]@),
                ) && old(self).insert_err(
                    addr,
                    Seq::new(items@.len(), |i: int| items@[i]@),
                    &e,
                    final(self),
                ),
            },
    ;
}

/// A backend-defined filtered listing. Implement this only where the
/// backend can answer the query itself.
pub trait AddressableQuery<Query: View, ListAddr: Address>: AddressableList<ListAddr> {
    /// Whether the query succeeds.
    spec fn query_ok(&self, addr: &ListAddr, query: Query::V) -> bool;

    /// The pairs a successful query yields.
    spec fn query_view(&self, addr: &ListAddr, query: Query::V) -> Seq<
        (<Self::AddedAddress as View>::V, <Self::ItemAddress as View>::V),
    >;

    /// What it means for `e` to describe a failed query.
    spec fn query_err(&self, addr: &ListAddr, query: Query::V, e: &Self::Error) -> bool;

    fn query(&self, addr: &ListAddr, query: Query) -> (r: Result<
        Vec<(Self::AddedAddress, Self::ItemAddress)>,
        Self::Error,
    >)
        ensures
            match r {
                Ok(v) => self.query_ok(addr, query@) && v@.len() == self.query_view(
                    addr,
                    query@,
                ).len() && forall|i: int|
                    0 <= i < v@.len() ==> (#[trigger] v@[i].0@, v@[i].1@) == self.query_view(
                        addr,
                        query@,
                    )[i],
                Err(e) => !self.query_ok(addr, query@) && self.query_err(addr, query@, &e),
            },
    ;
}

/// Classifying an address as an internal (listable) node or a terminal
/// node. The two address types let a backend hand back a more specific
/// address for terminal nodes.
pub trait AddressableTree<TreeAddr: Address + View, ItemAddr: Address + View>: AddressableList<
    TreeAddr,
> {
    /// Whether classification succeeds at `addr`.
    spec fn bl_ok(&self, addr: &TreeAddr) -> bool;

    /// Whether `addr` denotes a branch (an internal, listable node).
    spec fn is_branch_at(&self, addr: &TreeAddr) -> bool;

    /// What it means for `e` to describe a failed classification.
    spec fn bl_err(&self, addr: &TreeAddr, e: &Self::Error) -> bool;

    /// What it means for `item` to be the terminal-node form of `addr`.
    spec fn leaf_rel(&self, addr: &TreeAddr, item: &ItemAddr) -> bool;

    fn branch_or_leaf(&self, addr: TreeAddr) -> (r: Result<
        BranchOrLeaf<TreeAddr, ItemAddr>,
        Self::Error,
    >)
        ensures
            match r {
                Ok(BranchOrLeaf::Branch(a)) => self.bl_ok(&addr) && self.is_branch_at(&addr)
                    && a@ == addr@,
                Ok(BranchOrLeaf::Leaf(a)) => self.bl_ok(&addr) && !self.is_branch_at(&addr)
                    && self.leaf_rel(&addr, &a),
                Err(e) => !self.bl_ok(&addr) && self.bl_err(&addr, &e),
            },
    ;
}

} // verus!
