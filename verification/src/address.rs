//! The address model: value-type path identifiers that compose, and the
//! primitive addresses shared by every store.

use vstd::prelude::*;

verus! {

/// A syntactically valid, immutable address into a store.
pub trait Address: Sized {
    /// The addressable name of the last segment, as rendered text.
    spec fn own_name_spec(&self) -> Seq<char>;

    /// The rendered segments of the whole path, in order.
    spec fn as_parts_spec(&self) -> Seq<Seq<char>>;

    fn own_name(&self) -> (r: String)
        ensures
            r@ == self.own_name_spec(),
    ;

    fn as_parts(&self) -> (r: Vec<String>)
        ensures
            r@.len() == self.as_parts_spec().len(),
            forall|i: int|
                0 <= i < r@.len() ==> #[trigger] r@[i]@ == self.as_parts_spec()[i],
    ;
}

/// Composition of an address with a further part: `base.sub(part)` is the
/// address of `part` inside `base`.
pub trait SubAddress<Sub>: Address {
    type Output: Address;

    /// Which compositions are meaningful; most addresses compose with
    /// anything.
    spec fn sub_ok(&self, sub: &Sub) -> bool;

    /// What it means for `out` to be the composition of `self` and `sub`.
    spec fn sub_rel(&self, sub: &Sub, out: &Self::Output) -> bool;

    fn sub(self, sub: Sub) -> (r: Self::Output)
        requires
            self.sub_ok(&sub),
        ensures
            self.sub_rel(&sub, &r),
    ;
}

/// String-based navigation: an address that can be extended by parsing a
/// path string.
pub trait PathAddress: Address {
    type Error;

    type Output: Address;

    /// Whether `s` parses under this address's path syntax.
    spec fn path_ok(&self, s: Seq<char>) -> bool;

    /// What it means for `out` to be `self` extended by the parse of `s`.
    spec fn path_rel(&self, s: Seq<char>, out: &Self::Output) -> bool;

    /// What it means for `e` to describe why `s` does not parse.
    spec fn path_err(&self, s: Seq<char>, e: &Self::Error) -> bool;

    fn path(self, s: &str) -> (r: Result<Self::Output, Self::Error>)
        ensures
            match r {
                Ok(out) => self.path_ok(s@) && self.path_rel(s@, &out),
                Err(e) => !self.path_ok(s@) && self.path_err(s@, &e),
            },
    ;
}

/// The unit address of a store's root. It composes with any address by
/// returning the other operand.
#[derive(Clone, PartialEq, Eq, Structural, Debug)]
pub struct UniqueRootAddress;

impl Address for UniqueRootAddress {
    open spec fn own_name_spec(&self) -> Seq<char> {
        Seq::empty()
    }

    open spec fn as_parts_spec(&self) -> Seq<Seq<char>> {
        Seq::empty()
    }

    fn own_name(&self) -> (r: String) {
        String::new()
    }

    fn as_parts(&self) -> (r: Vec<String>) {
        Vec::new()
    }
}

impl<A: Address> SubAddress<A> for UniqueRootAddress {
    type Output = A;

    open spec fn sub_ok(&self, sub: &A) -> bool {
        true
    }

    open spec fn sub_rel(&self, sub: &A, out: &A) -> bool {
        out == sub
    }

    fn sub(self, sub: A) -> (r: A) {
        sub
    }
}

/// Ask for this value type when only the existence of an address matters.
#[derive(Clone, PartialEq, Eq, Structural, Debug, Default)]
pub struct Existence;

impl View for Existence {
    type V = ();

    open spec fn view(&self) -> () {
        ()
    }
}

/// Classification of an address: an internal, listable node or a terminal
/// node holding a scalar.
#[derive(Debug, Clone, PartialEq, Eq)]
pub enum BranchOrLeaf<B, L> {
    Branch(B),
    Leaf(L),
}

impl<B: View, L: View> View for BranchOrLeaf<B, L> {
    type V = BranchOrLeaf<B::V, L::V>;

    open spec fn view(&self) -> BranchOrLeaf<B::V, L::V> {
        match self {
            BranchOrLeaf::Branch(b) => BranchOrLeaf::Branch(b@),
            BranchOrLeaf::Leaf(l) => BranchOrLeaf::Leaf(l@),
        }
    }
}

impl<B, L> BranchOrLeaf<B, L> {
    /// The bare classification, with the addresses dropped.
    pub fn unit(&self) -> (r: BranchOrLeaf<(), ()>)
        ensures
            r is Branch <==> self is Branch,
    {
        match self {
            BranchOrLeaf::Branch(_) => BranchOrLeaf::Branch(()),
            BranchOrLeaf::Leaf(_) => BranchOrLeaf::Leaf(()),
        }
    }
}

} // verus!
