//! A store decorator that dynamically filters out addresses: reads of a
//! suppressed address come back absent, writes to it are rejected, and
//! listings drop suppressed children; branch-or-leaf classification
//! deliberately delegates unfiltered.

use vstd::prelude::*;

use crate::address::Address;
use crate::address::BranchOrLeaf;
use crate::paths::JsonPath;
use crate::paths::PathPartV;
use crate::paths::decimal_chars;
use crate::store::Addressable;
use crate::store::AddressableList;
use crate::store::AddressableRead;
use crate::store::AddressableTree;
use crate::store::AddressableWrite;
use crate::store::Store;

verus! {

/// A predicate over addresses, decided by their views. Implement this to
/// choose which addresses a [`FilterAddressesWrapperStore`] lets through.
pub trait AddressPredicate<A: Address + View> {
    /// Whether an address with this view is let through.
    spec fn accept_view(&self, addr: A::V) -> bool;

    fn accept(&self, addr: &A) -> (r: bool)
        ensures
            r == self.accept_view(addr@),
    ;
}

/// Errors of the filtering wrapper: an error of the underlying store, or a
/// rejected write to a suppressed location (carrying the location's own
/// name).
#[derive(Debug)]
pub enum FilterAddressesWrapperError<E> {
    StoreError(E),
    WriteToIgnoredLocation(String),
}

/// Wrap this over a store to dynamically filter out addresses.
pub struct FilterAddressesWrapperStore<S, F> {
    pub underlying: S,
    pub filter: F,
}

impl<S: Clone, F: Clone> Clone for FilterAddressesWrapperStore<S, F> {
    fn clone(&self) -> Self {
        FilterAddressesWrapperStore {
            underlying: self.underlying.clone(),
            filter: self.filter.clone(),
        }
    }
}

impl<S, F> FilterAddressesWrapperStore<S, F> {
    /// Construct the wrapper out of a store and an address predicate.
    pub fn new(underlying: S, filter: F) -> (r: Self)
        ensures
            r.underlying == underlying,
            r.filter == filter,
    {
        FilterAddressesWrapperStore { underlying, filter }
    }

    /// Hand back the underlying store, dropping the filter.
    pub fn destruct(self) -> (r: S)
        ensures
            r == self.underlying,
    {
        self.underlying
    }

    /// Whether the wrapper suppresses `addr`.
    pub fn should_ignore_addr<A: Address + View>(&self, addr: &A) -> (r: bool) where
        F: AddressPredicate<A>,

        ensures
            r == !self.filter.accept_view(addr@),
    {
        !self.filter.accept(addr)
    }

    /// Fails with a write-to-suppressed-location error when the wrapper
    /// suppresses `addr`.
    pub fn check_ignore_addr<A: Address + View, E>(&self, addr: &A) -> (r: Result<
        (),
        FilterAddressesWrapperError<E>,
    >) where F: AddressPredicate<A>
        ensures
            match r {
                Ok(()) => self.filter.accept_view(addr@),
                Err(e) => !self.filter.accept_view(addr@) && (e matches
                    FilterAddressesWrapperError::WriteToIgnoredLocation(s) && s@
                    == addr.own_name_spec()),
            },
    {
        if self.should_ignore_addr(addr) {
            Err(FilterAddressesWrapperError::WriteToIgnoredLocation(addr.own_name()))
        } else {
            Ok(())
        }
    }
}

impl<A: Address + View, S: Addressable<A>, F> Addressable<A> for FilterAddressesWrapperStore<
    S,
    F,
> {
    type DefaultValue = S::DefaultValue;
}

impl<S: Store, F> Store for FilterAddressesWrapperStore<S, F> {
    type Error = FilterAddressesWrapperError<S::Error>;

    type RootAddress = S::RootAddress;

    open spec fn root_rel(&self, a: &S::RootAddress) -> bool {
        self.underlying.root_rel(a)
    }

    fn root_address(&self) -> (r: S::RootAddress) {
        self.underlying.root_address()
    }
}

impl<
    Value: View,
    A: Address + View,
    S: AddressableRead<Value, A>,
    F: AddressPredicate<A>,
> AddressableRead<Value, A> for FilterAddressesWrapperStore<S, F> {
    open spec fn read_ok(&self, addr: &A) -> bool {
        !self.filter.accept_view(addr@) || self.underlying.read_ok(addr)
    }

    open spec fn read_view(&self, addr: &A) -> Option<Value::V> {
        if !self.filter.accept_view(addr@) {
            None
        } else {
            self.underlying.read_view(addr)
        }
    }

    open spec fn read_err(&self, addr: &A, e: &FilterAddressesWrapperError<S::Error>) -> bool {
        self.filter.accept_view(addr@) && (e matches FilterAddressesWrapperError::StoreError(
            inner,
        ) && self.underlying.read_err(addr, inner))
    }

    fn read(&self, addr: &A) -> (r: Result<Option<Value>, FilterAddressesWrapperError<S::Error>>) {
        if self.should_ignore_addr(addr) {
            Ok(None)
        } else {
            match self.underlying.read(addr) {
                Ok(v) => Ok(v),
                Err(e) => Err(FilterAddressesWrapperError::StoreError(e)),
            }
        }
    }
}

impl<
    Value: View,
    A: Address + View,
    S: AddressableWrite<Value, A>,
    F: AddressPredicate<A>,
> AddressableWrite<Value, A> for FilterAddressesWrapperStore<S, F> {
    open spec fn write_ok(&self, addr: &A, value: &Option<Value>) -> bool {
        self.filter.accept_view(addr@) && self.underlying.write_ok(addr, value)
    }

    open spec fn write_post(&self, addr: &A, value: &Option<Value>, new: &Self) -> bool {
        self.underlying.write_post(addr, value, &new.underlying) && new.filter == self.filter
    }

    open spec fn write_err(
        &self,
        addr: &A,
        value: &Option<Value>,
        e: &FilterAddressesWrapperError<S::Error>,
        new: &Self,
    ) -> bool {
        &&& new.filter == self.filter
        &&& if !self.filter.accept_view(addr@) {
            (e matches FilterAddressesWrapperError::WriteToIgnoredLocation(s) && s@
                == addr.own_name_spec()) && new.underlying == self.underlying
        } else {
            e matches FilterAddressesWrapperError::StoreError(inner)
                && self.underlying.write_err(addr, value, inner, &new.underlying)
        }
    }

    fn write(&mut self, addr: &A, value: &Option<Value>) -> (r: Result<
        (),
        FilterAddressesWrapperError<S::Error>,
    >) {
        match self.check_ignore_addr(addr) {
            Err(e) => Err(e),
            Ok(()) => {
                match self.underlying.write(addr, value) {
                    Ok(()) => Ok(()),
                    Err(e) => Err(FilterAddressesWrapperError::StoreError(e)),
                }
            },
        }
    }
}

/// The filtering predicate on listing pairs, deciding by the full child
/// address.
pub open spec fn pair_pred<AV, IA: Address + View, F: AddressPredicate<IA>>(f: F) -> spec_fn(
    (AV, IA::V),
) -> bool {
    |t: (AV, IA::V)| f.accept_view(t.1)
}

proof fn lemma_filter_push<T>(s: Seq<T>, x: T, pred: spec_fn(T) -> bool)
    ensures
        s.push(x).filter(pred) == if pred(x) {
            s.filter(pred).push(x)
        } else {
            s.filter(pred)
        },
{
    reveal(Seq::filter);
    assert(s.push(x).drop_last() =~= s);
    assert(s.push(x).last() == x);
}

impl<
    A: Address + View,
    S: AddressableList<A>,
    F: AddressPredicate<S::ItemAddress>,
> AddressableList<A> for FilterAddressesWrapperStore<S, F> {
    type AddedAddress = S::AddedAddress;

    type ItemAddress = S::ItemAddress;

    open spec fn list_ok(&self, addr: &A) -> bool {
        self.underlying.list_ok(addr)
    }

    open spec fn list_view(&self, addr: &A) -> Seq<
        (<S::AddedAddress as View>::V, <S::ItemAddress as View>::V),
    > {
        self.underlying.list_view(addr).filter(pair_pred::<_, S::ItemAddress, F>(self.filter))
    }

    open spec fn list_err(&self, addr: &A, e: &FilterAddressesWrapperError<S::Error>) -> bool {
        e matches FilterAddressesWrapperError::StoreError(inner) && self.underlying.list_err(
            addr,
            inner,
        )
    }

    #[verifier::loop_isolation(false)]
    fn list(&self, addr: &A) -> (r: Result<
        Vec<(S::AddedAddress, S::ItemAddress)>,
        FilterAddressesWrapperError<S::Error>,
    >) {
        let ghost full = self.underlying.list_view(addr);
        let ghost pred = pair_pred::<_, S::ItemAddress, F>(self.filter);
        match self.underlying.list(addr) {
            Err(e) => Err(FilterAddressesWrapperError::StoreError(e)),
            Ok(pairs) => {
                let n: usize = pairs.len();
                // flip the pairs so they can be handed over by value in the
                // original enumeration order
                let mut rest: Vec<(S::AddedAddress, S::ItemAddress)> = pairs;
                let mut rev: Vec<(S::AddedAddress, S::ItemAddress)> = Vec::new();
                while rest.len() > 0
                    invariant
                        rev@.len() + rest@.len() == n as int,
                        n as int == full.len(),
                        forall|m: int|
                            0 <= m < rest@.len() ==> (#[trigger] rest@[m].0@, rest@[m].1@)
                                == full[m],
                        forall|m: int|
                            0 <= m < rev@.len() ==> (#[trigger] rev@[m].0@, rev@[m].1@) == full[n
                                - 1 - m],
                    decreases rest@.len(),
                {
                    match rest.pop() {
                        Some(p) => {
                            rev.push(p);
                        },
                        None => {
                            vstd::pervasive::unreached::<()>();
                        },
                    }
                }
                let mut out: Vec<(S::AddedAddress, S::ItemAddress)> = Vec::new();
                let mut i: usize = 0;
                proof {
                    assert(full.take(0) =~= Seq::<
                        (<S::AddedAddress as View>::V, <S::ItemAddress as View>::V),
                    >::empty());
                    reveal(Seq::filter);
                }
                while i < n
                    invariant
                        i <= n,
                        rev@.len() == n - i,
                        forall|m: int|
                            0 <= m < rev@.len() ==> (#[trigger] rev@[m].0@, rev@[m].1@) == full[n
                                - 1 - m],
                        Seq::new(out@.len(), |m: int| (out@[m].0@, out@[m].1@)) =~= full.take(
                            i as int,
                        ).filter(pred),
                    decreases n - i,
                {
                    let pair: (S::AddedAddress, S::ItemAddress) = match rev.pop() {
                        Some(p) => p,
                        None => vstd::pervasive::unreached(),
                    };
                    proof {
                        assert((pair.0@, pair.1@) == full[i as int]);
                        assert(full.take(i + 1 as int) =~= full.take(i as int).push(
                            full[i as int],
                        ));
                        lemma_filter_push(full.take(i as int), full[i as int], pred);
                        assert(pred(full[i as int]) == self.filter.accept_view(
                            full[i as int].1,
                        ));
                    }
                    if self.filter.accept(&pair.1) {
                        out.push(pair);
                        proof {
                            assert(Seq::new(out@.len(), |m: int| (out@[m].0@, out@[m].1@))
                                =~= full.take(i + 1 as int).filter(pred));
                        }
                    } else {
                        proof {
                            assert(Seq::new(out@.len(), |m: int| (out@[m].0@, out@[m].1@))
                                =~= full.take(i + 1 as int).filter(pred));
                        }
                    }
                    i = i + 1;
                }
                proof {
                    assert(full.take(n as int) =~= full);
                }
                Ok(out)
            },
        }
    }
}

impl<
    TreeAddr: Address + View,
    ItemAddr: Address + View,
    S: AddressableTree<TreeAddr, ItemAddr>,
    F: AddressPredicate<S::ItemAddress>,
> AddressableTree<TreeAddr, ItemAddr> for FilterAddressesWrapperStore<S, F> {
    open spec fn bl_ok(&self, addr: &TreeAddr) -> bool {
        self.underlying.bl_ok(addr)
    }

    open spec fn is_branch_at(&self, addr: &TreeAddr) -> bool {
        self.underlying.is_branch_at(addr)
    }

    open spec fn bl_err(&self, addr: &TreeAddr, e: &FilterAddressesWrapperError<S::Error>) -> bool {
        e matches FilterAddressesWrapperError::StoreError(inner) && self.underlying.bl_err(
            addr,
            inner,
        )
    }

    open spec fn leaf_rel(&self, addr: &TreeAddr, item: &ItemAddr) -> bool {
        self.underlying.leaf_rel(addr, item)
    }

    fn branch_or_leaf(&self, addr: TreeAddr) -> (r: Result<
        BranchOrLeaf<TreeAddr, ItemAddr>,
        FilterAddressesWrapperError<S::Error>,
    >) {
        match self.underlying.branch_or_leaf(addr) {
            Ok(bl) => Ok(bl),
            Err(e) => Err(FilterAddressesWrapperError::StoreError(e)),
        }
    }
}

/// The spec-level counterpart of [`JsonPathPart::to_key`].
pub open spec fn part_key_view(p: PathPartV) -> Seq<char> {
    match p {
        PathPartV::Key(s) => s,
        PathPartV::Index(i) => decimal_chars(i as nat),
    }
}

/// A predicate over JSON paths that hides every address whose final
/// segment's key starts with a given character.
#[derive(Debug, Clone, Copy, PartialEq, Eq, Structural)]
pub struct HideKeyPrefix {
    pub prefix: char,
}

impl AddressPredicate<JsonPath> for HideKeyPrefix {
    open spec fn accept_view(&self, addr: Seq<PathPartV>) -> bool {
        addr.len() == 0 || {
            let key = part_key_view(addr.last());
            key.len() == 0 || key[0] != self.prefix
        }
    }

    fn accept(&self, addr: &JsonPath) -> (r: bool) {
        let n: usize = addr.0.len();
        if n == 0 {
            return true;
        }
        let key: String = addr.0[n - 1].to_key();
        proof {
            assert(addr.0@[n - 1]@ == addr@.last());
        }
        let klen: usize = key.as_str().unicode_len();
        if klen == 0 {
            return true;
        }
        key.as_str().get_char(0) != self.prefix
    }
}

} // verus!
