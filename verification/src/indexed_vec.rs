//! A vector of values addressed by an id derived from each value: reading
//! an id returns the first value that carries it.

use vstd::prelude::*;

use crate::address::Address;
use crate::paths::decimal_chars;
use crate::paths::usize_to_string;

verus! {

/// Errors of the indexed vector store. There are none: a missing id is a
/// legitimate absence.
#[derive(Debug, PartialEq, Eq)]
pub struct IndexedVecStoreError;

/// The address of a value inside an [`IndexedVecStore`]: the value's own
/// id.
#[derive(Debug, PartialEq, Eq)]
pub struct Id<IdType>(pub IdType);

impl Address for Id<usize> {
    open spec fn own_name_spec(&self) -> Seq<char> {
        decimal_chars(self.0 as nat)
    }

    open spec fn as_parts_spec(&self) -> Seq<Seq<char>> {
        seq![decimal_chars(self.0 as nat)]
    }

    fn own_name(&self) -> (r: String) {
        usize_to_string(self.0)
    }

    fn as_parts(&self) -> (r: Vec<String>) {
        let mut out: Vec<String> = Vec::new();
        out.push(usize_to_string(self.0));
        proof {
            assert(Seq::new(out@.len(), |i: int| out@[i]@) =~= seq![
                decimal_chars(self.0 as nat),
            ]);
        }
        out
    }
}

/// A vector of values, each carrying an id of its own; ids need not be
/// unique, and a lookup finds the first value with the asked-for id.
pub struct IndexedVecStore<V> {
    pub vec: Vec<V>,
}

impl<V> IndexedVecStore<V> {
    /// Wraps a vector of values into a store.
    pub fn new(vec: Vec<V>) -> (r: Self)
        ensures
            r.vec == vec,
    {
        IndexedVecStore { vec }
    }

    /// The first value on which `matches_id` answers true, if any: the
    /// caller supplies the id test derived from its id function.
    pub fn read_by<F: Fn(&V) -> bool>(&self, matches_id: F) -> (r: Option<&V>)
        requires
            forall|v: &V| self.vec@.contains(*v) ==> matches_id.requires((v,)),
        ensures
            match r {
                Some(x) => exists|i: int|
                    0 <= i < self.vec@.len() && *x == self.vec@[i] && matches_id.ensures(
                        (&self.vec@[i],),
                        true,
                    ),
                None => true,
            },
    {
        let mut i: usize = 0;
        while i < self.vec.len()
            invariant
                i <= self.vec@.len(),
                forall|v: &V| self.vec@.contains(*v) ==> matches_id.requires((v,)),
            decreases self.vec@.len() - i,
        {
            proof {
                assert(self.vec@.contains(self.vec@[i as int]));
            }
            if matches_id(&self.vec[i]) {
                return Some(&self.vec[i]);
            }
            i = i + 1;
        }
        None
    }
}

} // verus!
