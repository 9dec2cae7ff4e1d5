//! An in-memory store whose backing value is a JSON tree, addressed by
//! structured JSON paths through the capability contract.

use vstd::prelude::*;

use crate::address::BranchOrLeaf;
use crate::address::Existence;
use crate::json_value::JsonKind;
use crate::json_value::JsonValue;
use crate::json_value::JsonValueV;
use crate::paths::JsonPath;
use crate::paths::JsonPathPart;
use crate::paths::PathPartV;
use crate::store::Addressable;
use crate::store::AddressableInsert;
use crate::store::AddressableList;
use crate::store::AddressableRead;
use crate::store::AddressableTree;
use crate::store::AddressableWrite;
use crate::store::Store;
use crate::traverse::JsonTraverseError;
use crate::traverse::delete_path_spec;
use crate::traverse::delete_pathvalue;
use crate::traverse::get_path_spec;
use crate::traverse::get_pathvalue;
use crate::traverse::insert_path_spec;
use crate::traverse::insert_pathvalue;
use crate::traverse::set_path_spec;
use crate::traverse::set_pathvalue;

verus! {

broadcast use vstd::std_specs::vec::axiom_vec_index_decreases, crate::json_value::lemma_view_shape;

/// Ghost mirror of [`JsonValueStoreError`].
pub enum JsonValueStoreErrorV {
    Traverse((PathPartV, JsonKind)),
    NotFound,
    NotListable(JsonKind),
}

/// Errors of the JSON value store: a structural mismatch during traversal,
/// a listing of an address that does not exist, or a listing or insert at a
/// scalar.
#[derive(Debug, PartialEq, Eq)]
pub enum JsonValueStoreError {
    Traverse(JsonTraverseError),
    NotFound,
    NotListable(JsonKind),
}

impl View for JsonValueStoreError {
    type V = JsonValueStoreErrorV;

    open spec fn view(&self) -> JsonValueStoreErrorV {
        match self {
            JsonValueStoreError::Traverse(e) => JsonValueStoreErrorV::Traverse(e@),
            JsonValueStoreError::NotFound => JsonValueStoreErrorV::NotFound,
            JsonValueStoreError::NotListable(k) => JsonValueStoreErrorV::NotListable(*k),
        }
    }
}

/// The direct children of a container value located at `addr`: one pair of
/// the added part and the full child address per object key or array
/// index, in enumeration order.
pub open spec fn children_pairs(v: JsonValueV, addr: Seq<PathPartV>) -> Seq<
    (PathPartV, Seq<PathPartV>),
> {
    match v {
        JsonValueV::Object(es) => Seq::new(
            es.len(),
            |i: int| (PathPartV::Key(es[i].0), addr.push(PathPartV::Key(es[i].0))),
        ),
        JsonValueV::Array(items) => Seq::new(
            items.len(),
            |i: int| (PathPartV::Index(i), addr.push(PathPartV::Index(i))),
        ),
        _ => Seq::empty(),
    }
}

/// A `serde`-style JSON value held in memory and exposed through the
/// capability contract.
#[derive(Debug, PartialEq, Eq)]
pub struct JsonValueStore {
    pub value: JsonValue,
}

impl View for JsonValueStore {
    type V = JsonValueV;

    open spec fn view(&self) -> JsonValueV {
        self.value@
    }
}

impl Clone for JsonValueStore {
    fn clone(&self) -> (res: Self)
        ensures
            res@ == self@,
    {
        JsonValueStore { value: self.value.clone() }
    }
}

impl JsonValueStore {
    /// Wraps a JSON value into a store.
    pub fn new(value: JsonValue) -> (r: Self)
        ensures
            r@ == value@,
    {
        JsonValueStore { value }
    }

    /// Hands the backing value back, consuming the store.
    pub fn try_destruct(self) -> (r: JsonValue)
        ensures
            r@ == self@,
    {
        self.value
    }
}

/// Builds an in-memory JSON store over the given backing value.
pub fn json_value_store(val: JsonValue) -> (r: JsonValueStore)
    ensures
        r@ == val@,
{
    JsonValueStore::new(val)
}

impl Addressable<JsonPath> for JsonValueStore {
    type DefaultValue = JsonValue;
}

impl Store for JsonValueStore {
    type Error = JsonValueStoreError;

    type RootAddress = JsonPath;

    open spec fn root_rel(&self, a: &JsonPath) -> bool {
        a@ == Seq::<PathPartV>::empty()
    }

    fn root_address(&self) -> (r: JsonPath) {
        JsonPath::root()
    }
}

impl AddressableRead<JsonValue, JsonPath> for JsonValueStore {
    open spec fn read_ok(&self, addr: &JsonPath) -> bool {
        get_path_spec(self@, addr@) is Ok
    }

    open spec fn read_view(&self, addr: &JsonPath) -> Option<JsonValueV> {
        get_path_spec(self@, addr@)->Ok_0
    }

    open spec fn read_err(&self, addr: &JsonPath, e: &JsonValueStoreError) -> bool {
        e@ == JsonValueStoreErrorV::Traverse(get_path_spec(self@, addr@)->Err_0)
    }

    fn read(&self, addr: &JsonPath) -> (r: Result<Option<JsonValue>, JsonValueStoreError>) {
        match get_pathvalue(&self.value, addr, 0) {
            Ok(Some(found)) => {
                proof {
                    assert(addr@.skip(0) =~= addr@);
                }
                Ok(Some(found.clone()))
            },
            Ok(None) => {
                proof {
                    assert(addr@.skip(0) =~= addr@);
                }
                Ok(None)
            },
            Err(e) => {
                proof {
                    assert(addr@.skip(0) =~= addr@);
                }
                Err(JsonValueStoreError::Traverse(e))
            },
        }
    }
}

impl AddressableRead<Existence, JsonPath> for JsonValueStore {
    open spec fn read_ok(&self, addr: &JsonPath) -> bool {
        get_path_spec(self@, addr@) is Ok
    }

    open spec fn read_view(&self, addr: &JsonPath) -> Option<()> {
        match get_path_spec(self@, addr@)->Ok_0 {
            Some(_) => Some(()),
            None => None,
        }
    }

    open spec fn read_err(&self, addr: &JsonPath, e: &JsonValueStoreError) -> bool {
        e@ == JsonValueStoreErrorV::Traverse(get_path_spec(self@, addr@)->Err_0)
    }

    fn read(&self, addr: &JsonPath) -> (r: Result<Option<Existence>, JsonValueStoreError>) {
        match get_pathvalue(&self.value, addr, 0) {
            Ok(Some(_)) => {
                proof {
                    assert(addr@.skip(0) =~= addr@);
                }
                Ok(Some(Existence))
            },
            Ok(None) => {
                proof {
                    assert(addr@.skip(0) =~= addr@);
                }
                Ok(None)
            },
            Err(e) => {
                proof {
                    assert(addr@.skip(0) =~= addr@);
                }
                Err(JsonValueStoreError::Traverse(e))
            },
        }
    }
}

impl AddressableWrite<JsonValue, JsonPath> for JsonValueStore {
    open spec fn write_ok(&self, addr: &JsonPath, value: &Option<JsonValue>) -> bool {
        match value {
            Some(x) => set_path_spec(self@, addr@, x@) is Ok,
            None => delete_path_spec(self@, addr@) is Ok,
        }
    }

    open spec fn write_post(
        &self,
        addr: &JsonPath,
        value: &Option<JsonValue>,
        new: &Self,
    ) -> bool {
        match value {
            Some(x) => new@ == set_path_spec(self@, addr@, x@)->Ok_0,
            None => new@ == delete_path_spec(self@, addr@)->Ok_0,
        }
    }

    open spec fn write_err(
        &self,
        addr: &JsonPath,
        value: &Option<JsonValue>,
        e: &JsonValueStoreError,
        new: &Self,
    ) -> bool {
        &&& new@ == self@
        &&& match value {
            Some(x) => e@ == JsonValueStoreErrorV::Traverse(
                set_path_spec(self@, addr@, x@)->Err_0,
            ),
            None => e@ == JsonValueStoreErrorV::Traverse(delete_path_spec(self@, addr@)->Err_0),
        }
    }

    fn write(&mut self, addr: &JsonPath, value: &Option<JsonValue>) -> (r: Result<
        (),
        JsonValueStoreError,
    >) {
        proof {
            assert(addr@.skip(0) =~= addr@);
        }
        let current: JsonValue = self.value.clone();
        match value {
            Some(x) => {
                match set_pathvalue(current, addr, 0, x.clone()) {
                    Ok(nv) => {
                        self.value = nv;
                        Ok(())
                    },
                    Err(e) => Err(JsonValueStoreError::Traverse(e)),
                }
            },
            None => {
                match delete_pathvalue(current, addr, 0) {
                    Ok(nv) => {
                        self.value = nv;
                        Ok(())
                    },
                    Err(e) => Err(JsonValueStoreError::Traverse(e)),
                }
            },
        }
    }
}

impl AddressableList<JsonPath> for JsonValueStore {
    type AddedAddress = JsonPathPart;

    type ItemAddress = JsonPath;

    open spec fn list_ok(&self, addr: &JsonPath) -> bool {
        match get_path_spec(self@, addr@) {
            Ok(Some(v)) => v is Array || v is Object,
            _ => false,
        }
    }

    open spec fn list_view(&self, addr: &JsonPath) -> Seq<(PathPartV, Seq<PathPartV>)> {
        children_pairs(get_path_spec(self@, addr@)->Ok_0->Some_0, addr@)
    }

    open spec fn list_err(&self, addr: &JsonPath, e: &JsonValueStoreError) -> bool {
        match get_path_spec(self@, addr@) {
            Err(err) => e@ == JsonValueStoreErrorV::Traverse(err),
            Ok(None) => e@ == JsonValueStoreErrorV::NotFound,
            Ok(Some(v)) => e@ == JsonValueStoreErrorV::NotListable(
                crate::json_value::kind_of(v),
            ),
        }
    }

    #[verifier::loop_isolation(false)]
    fn list(&self, addr: &JsonPath) -> (r: Result<
        Vec<(JsonPathPart, JsonPath)>,
        JsonValueStoreError,
    >) {
        proof {
            assert(addr@.skip(0) =~= addr@);
        }
        let found: Option<&JsonValue> = match get_pathvalue(&self.value, addr, 0) {
            Ok(f) => f,
            Err(e) => {
                return Err(JsonValueStoreError::Traverse(e));
            },
        };
        match found {
            None => Err(JsonValueStoreError::NotFound),
            Some(v) => {
                let ghost model = get_path_spec(self@, addr@)->Ok_0->Some_0;
                match v {
                    JsonValue::Object(entries) => {
                        let mut out: Vec<(JsonPathPart, JsonPath)> = Vec::new();
                        let mut i: usize = 0;
                        while i < entries.len()
                            invariant
                                i <= entries@.len(),
                                out@.len() == i as int,
                                forall|m: int|
                                    0 <= m < i as int ==> (
                                    #[trigger] out@[m].0@,
                                    out@[m].1@,
                                    ) == children_pairs(model, addr@)[m],
                            decreases entries@.len() - i,
                        {
                            let part = JsonPathPart::Key(entries[i].0.clone());
                            let child: JsonPath = addr.clone().sub_part(part.clone());
                            proof {
                                assert(model->Object_0[i as int].0 == entries@[i as int].0@);
                            }
                            out.push((part, child));
                            i = i + 1;
                        }
                        Ok(out)
                    },
                    JsonValue::Array(items) => {
                        let mut out: Vec<(JsonPathPart, JsonPath)> = Vec::new();
                        let mut i: usize = 0;
                        while i < items.len()
                            invariant
                                i <= items@.len(),
                                out@.len() == i as int,
                                forall|m: int|
                                    0 <= m < i as int ==> (
                                    #[trigger] out@[m].0@,
                                    out@[m].1@,
                                    ) == children_pairs(model, addr@)[m],
                            decreases items@.len() - i,
                        {
                            let part = JsonPathPart::Index(i);
                            let child: JsonPath = addr.clone().sub_part(part.clone());
                            out.push((part, child));
                            i = i + 1;
                        }
                        Ok(out)
                    },
                    other => Err(JsonValueStoreError::NotListable(other.kind())),
                }
            },
        }
    }
}

impl AddressableTree<JsonPath, JsonPath> for JsonValueStore {
    open spec fn bl_ok(&self, addr: &JsonPath) -> bool {
        get_path_spec(self@, addr@) matches Ok(Some(_))
    }

    open spec fn is_branch_at(&self, addr: &JsonPath) -> bool {
        {
            let v = get_path_spec(self@, addr@)->Ok_0->Some_0;
            v is Array || v is Object
        }
    }

    open spec fn bl_err(&self, addr: &JsonPath, e: &JsonValueStoreError) -> bool {
        match get_path_spec(self@, addr@) {
            Err(err) => e@ == JsonValueStoreErrorV::Traverse(err),
            Ok(None) => e@ == JsonValueStoreErrorV::NotFound,
            Ok(Some(_)) => false,
        }
    }

    open spec fn leaf_rel(&self, addr: &JsonPath, item: &JsonPath) -> bool {
        item@ == addr@
    }

    fn branch_or_leaf(&self, addr: JsonPath) -> (r: Result<
        BranchOrLeaf<JsonPath, JsonPath>,
        JsonValueStoreError,
    >) {
        proof {
            assert(addr@.skip(0) =~= addr@);
        }
        match get_pathvalue(&self.value, &addr, 0) {
            Ok(Some(v)) => {
                if v.is_branch() {
                    Ok(BranchOrLeaf::Branch(addr))
                } else {
                    Ok(BranchOrLeaf::Leaf(addr))
                }
            },
            Ok(None) => Err(JsonValueStoreError::NotFound),
            Err(e) => Err(JsonValueStoreError::Traverse(e)),
        }
    }
}

impl AddressableInsert<JsonValue, JsonPath> for JsonValueStore {
    open spec fn insert_ok(&self, addr: &JsonPath, items: Seq<JsonValueV>) -> bool {
        insert_path_spec(self@, addr@, items) is Ok
    }

    open spec fn insert_post(
        &self,
        addr: &JsonPath,
        items: Seq<JsonValueV>,
        new: &Self,
        pairs: Seq<(PathPartV, Seq<PathPartV>)>,
    ) -> bool {
        {
            let result = insert_path_spec(self@, addr@, items)->Ok_0;
            &&& new@ == result.0
            &&& pairs == Seq::new(
                items.len(),
                |j: int|
                    (
                        PathPartV::Index(result.1 + j),
                        addr@.push(PathPartV::Index(result.1 + j)),
                    ),
            )
        }
    }

    open spec fn insert_err(
        &self,
        addr: &JsonPath,
        items: Seq<JsonValueV>,
        e: &JsonValueStoreError,
        new: &Self,
    ) -> bool {
        &&& new@ == self@
        &&& e@ == JsonValueStoreErrorV::Traverse(insert_path_spec(self@, addr@, items)->Err_0)
    }

    #[verifier::loop_isolation(false)]
    fn insert(&mut self, addr: &JsonPath, items: Vec<JsonValue>) -> (r: Result<
        Vec<(JsonPathPart, JsonPath)>,
        JsonValueStoreError,
    >) {
        proof {
            assert(addr@.skip(0) =~= addr@);
        }
        let ghost items_v = Seq::new(items@.len(), |i: int| items@[i]@);
        let n: usize = items.len();
        let current: JsonValue = self.value.clone();
        match insert_pathvalue(current, addr, 0, items) {
            Ok((nv, start)) => {
                self.value = nv;
                let mut out: Vec<(JsonPathPart, JsonPath)> = Vec::new();
                let mut j: usize = 0;
                while j < n
                    invariant
                        j <= n,
                        start + n <= usize::MAX,
                        out@.len() == j as int,
                        forall|m: int|
                            0 <= m < j as int ==> (#[trigger] out@[m].0@, out@[m].1@) == (
                                PathPartV::Index(start + m),
                                addr@.push(PathPartV::Index(start + m)),
                            ),
                    decreases n - j,
                {
                    let part = JsonPathPart::Index(start + j);
                    let child: JsonPath = addr.clone().sub_part(part.clone());
                    out.push((part, child));
                    j = j + 1;
                }
                proof {
                    assert(Seq::new(out@.len(), |m: int| (out@[m].0@, out@[m].1@)) =~= Seq::new(
                        items_v.len(),
                        |m: int|
                            (
                                PathPartV::Index(start as int + m),
                                addr@.push(PathPartV::Index(start as int + m)),
                            ),
                    ));
                }
                Ok(out)
            },
            Err(e) => Err(JsonValueStoreError::Traverse(e)),
        }
    }
}

} // verus!
