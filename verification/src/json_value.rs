//! The JSON-like recursive value tree: null, booleans, integers, strings,
//! ordered arrays, and ordered-by-insertion objects, together with the
//! spec-level helpers for object entry lookup and update.

use vstd::prelude::*;

verus! {

broadcast use vstd::std_specs::vec::axiom_vec_index_decreases;

/// Ghost mirror of [`JsonValue`].
#[verifier::ext_equal]
pub enum JsonValueV {
    Null,
    Bool(bool),
    Number(int),
    String(Seq<char>),
    Array(Seq<JsonValueV>),
    Object(Seq<(Seq<char>, JsonValueV)>),
}

/// A JSON-like value: a recursive tree of scalars, arrays and objects.
/// Objects keep their entries in insertion order.
#[derive(Debug, PartialEq, Eq)]
pub enum JsonValue {
    Null,
    Bool(bool),
    Number(i64),
    String(String),
    Array(Vec<JsonValue>),
    Object(Vec<(String, JsonValue)>),
}

impl View for JsonValue {
    type V = JsonValueV;

    open spec fn view(&self) -> JsonValueV
        decreases self,
    {
        match self {
            JsonValue::Null => JsonValueV::Null,
            JsonValue::Bool(b) => JsonValueV::Bool(*b),
            JsonValue::Number(n) => JsonValueV::Number(*n as int),
            JsonValue::String(s) => JsonValueV::String(s@),
            JsonValue::Array(items) => JsonValueV::Array(
                Seq::new(
                    items@.len(),
                    |i: int|
                        if 0 <= i < items@.len() {
                            items@[i]@
                        } else {
                            JsonValueV::Null
                        },
                ),
            ),
            JsonValue::Object(entries) => JsonValueV::Object(
                Seq::new(
                    entries@.len(),
                    |i: int|
                        if 0 <= i < entries@.len() {
                            (entries@[i].0@, entries@[i].1@)
                        } else {
                            (Seq::empty(), JsonValueV::Null)
                        },
                ),
            ),
        }
    }
}

impl Clone for JsonValue {
    #[verifier::loop_isolation(false)]
    fn clone(&self) -> (res: Self)
        ensures
            res@ == self@,
        decreases self,
    {
        match self {
            JsonValue::Null => JsonValue::Null,
            JsonValue::Bool(b) => JsonValue::Bool(*b),
            JsonValue::Number(n) => JsonValue::Number(*n),
            JsonValue::String(s) => JsonValue::String(s.clone()),
            JsonValue::Array(items) => {
                let mut out: Vec<JsonValue> = Vec::new();
                let mut i: usize = 0;
                while i < items.len()
                    invariant
                        i <= items@.len(),
                        out@.len() == i as int,
                        forall|k: int| 0 <= k < i as int ==> #[trigger] out@[k]@ == items@[k]@,
                    decreases items@.len() - i,
    {
                    proof {
                        assert(decreases_to!(items@ => items@[i as int]));
                    }
                    out.push(items[i].clone());
                    i = i + 1;
                }
                let res = JsonValue::Array(out);
                proof {
                    assert forall|k: int| 0 <= k < items@.len() implies res@->Array_0[k]
                        == self@->Array_0[k] by {
                        assert(res@->Array_0[k] == out@[k]@);
                        assert(self@->Array_0[k] == items@[k]@);
                    }
                    assert(res@->Array_0 =~= self@->Array_0);
                    assert(res@ =~= self@);
                }
                res
            },
            JsonValue::Object(entries) => {
                let mut out: Vec<(String, JsonValue)> = Vec::new();
                let mut i: usize = 0;
                while i < entries.len()
                    invariant
                        i <= entries@.len(),
                        out@.len() == i as int,
                        forall|k: int|
                            0 <= k < i as int ==> #[trigger] out@[k].0@ == entries@[k].0@
                                && out@[k].1@ == entries@[k].1@,
                    decreases entries@.len() - i,
    {
                    proof {
                        assert(decreases_to!(entries@ => entries@[i as int]));
                    }
                    let key: String = entries[i].0.clone();
                    let val: JsonValue = entries[i].1.clone();
                    out.push((key, val));
                    i = i + 1;
                }
                let res = JsonValue::Object(out);
                proof {
                    reveal_with_fuel(<JsonValue as View>::view, 3);
                    assert(*self == JsonValue::Object(*entries));
                    assert forall|k: int| 0 <= k < entries@.len() implies res@->Object_0[k]
                        == self@->Object_0[k] by {
                        assert(res@->Object_0[k] == (out@[k].0@, out@[k].1@));
                        assert(self@->Object_0[k] == (entries@[k].0@, entries@[k].1@));
                    }
                    assert(res@->Object_0 =~= self@->Object_0);
                    assert(res@ =~= self@);
                }
                res
            },
        }
    }
}

/// The container kind of a value, used in structural-mismatch diagnostics.
#[derive(Debug, Clone, Copy, PartialEq, Eq, Structural)]
pub enum JsonKind {
    Null,
    Bool,
    Number,
    String,
    Array,
    Object,
}

pub open spec fn kind_of(v: JsonValueV) -> JsonKind {
    match v {
        JsonValueV::Null => JsonKind::Null,
        JsonValueV::Bool(_) => JsonKind::Bool,
        JsonValueV::Number(_) => JsonKind::Number,
        JsonValueV::String(_) => JsonKind::String,
        JsonValueV::Array(_) => JsonKind::Array,
        JsonValueV::Object(_) => JsonKind::Object,
    }
}

impl JsonValue {
    /// The kind of this value.
    pub fn kind(&self) -> (r: JsonKind)
        ensures
            r == kind_of(self@),
    {
        match self {
            JsonValue::Null => JsonKind::Null,
            JsonValue::Bool(_) => JsonKind::Bool,
            JsonValue::Number(_) => JsonKind::Number,
            JsonValue::String(_) => JsonKind::String,
            JsonValue::Array(_) => JsonKind::Array,
            JsonValue::Object(_) => JsonKind::Object,
        }
    }

    /// Whether this value is a container (an array or an object), i.e. a
    /// branch of the value tree; scalars including null are leaves.
    pub fn is_branch(&self) -> (r: bool)
        ensures
            r == (self@ is Array || self@ is Object),
    {
        match self {
            JsonValue::Array(_) => true,
            JsonValue::Object(_) => true,
            _ => false,
        }
    }
}

/// Bridges a value and its view: variants correspond, and container views
/// are the element views, index by index.
pub broadcast proof fn lemma_view_shape(v: JsonValue)
    ensures
        #![trigger v.view()]
        (v is Null <==> v@ is Null),
        (v is Bool <==> v@ is Bool),
        (v is Number <==> v@ is Number),
        (v is String <==> v@ is String),
        (v is Array <==> v@ is Array),
        (v is Object <==> v@ is Object),
        v is Array ==> v@->Array_0.len() == v->Array_0@.len() && forall|i: int|
            0 <= i < v->Array_0@.len() ==> #[trigger] v@->Array_0[i] == v->Array_0@[i]@,
        v is Object ==> v@->Object_0.len() == v->Object_0@.len() && forall|i: int|
            0 <= i < v->Object_0@.len() ==> #[trigger] v@->Object_0[i] == (
                v->Object_0@[i].0@,
                v->Object_0@[i].1@,
            ),
{
    reveal_with_fuel(<JsonValue as View>::view, 2);
}

/// The index of the first entry with key `k`, or `-1` if there is none.
pub open spec fn obj_key_index(es: Seq<(Seq<char>, JsonValueV)>, k: Seq<char>) -> int
    decreases es.len(),
{
    if es.len() == 0 {
        -1
    } else if es[0].0 == k {
        0
    } else if obj_key_index(es.drop_first(), k) < 0 {
        -1
    } else {
        1 + obj_key_index(es.drop_first(), k)
    }
}

pub open spec fn obj_has_key(es: Seq<(Seq<char>, JsonValueV)>, k: Seq<char>) -> bool {
    obj_key_index(es, k) >= 0
}

/// The value under key `k` (the first such entry when keys repeat).
pub open spec fn obj_get(es: Seq<(Seq<char>, JsonValueV)>, k: Seq<char>) -> JsonValueV {
    es[obj_key_index(es, k)].1
}

/// Upserts `k`: updates the first entry with that key in place, or appends a
/// new entry at the end.
pub open spec fn obj_set(
    es: Seq<(Seq<char>, JsonValueV)>,
    k: Seq<char>,
    val: JsonValueV,
) -> Seq<(Seq<char>, JsonValueV)> {
    if obj_has_key(es, k) {
        es.update(obj_key_index(es, k), (k, val))
    } else {
        es.push((k, val))
    }
}

/// Removes the first entry with key `k`, if any.
pub open spec fn obj_remove(es: Seq<(Seq<char>, JsonValueV)>, k: Seq<char>) -> Seq<
    (Seq<char>, JsonValueV),
> {
    if obj_has_key(es, k) {
        es.remove(obj_key_index(es, k))
    } else {
        es
    }
}

pub proof fn lemma_obj_key_index(es: Seq<(Seq<char>, JsonValueV)>, k: Seq<char>)
    ensures
        -1 <= obj_key_index(es, k) < es.len(),
        obj_key_index(es, k) >= 0 ==> es[obj_key_index(es, k)].0 == k,
        forall|m: int| 0 <= m < obj_key_index(es, k) ==> (#[trigger] es[m]).0 != k,
        obj_key_index(es, k) < 0 ==> forall|m: int|
            0 <= m < es.len() ==> (#[trigger] es[m]).0 != k,
    decreases es.len(),
{
    if es.len() > 0 && es[0].0 != k {
        lemma_obj_key_index(es.drop_first(), k);
        assert(forall|m: int| 1 <= m < es.len() ==> es[m] == es.drop_first()[m - 1]);
    }
}

pub proof fn lemma_obj_set_get(es: Seq<(Seq<char>, JsonValueV)>, k: Seq<char>, val: JsonValueV)
    ensures
        obj_has_key(obj_set(es, k, val), k),
        obj_get(obj_set(es, k, val), k) == val,
    decreases es.len(),
{
    lemma_obj_key_index(es, k);
    let es2 = obj_set(es, k, val);
    lemma_obj_key_index(es2, k);
    let i = obj_key_index(es, k);
    let j = obj_key_index(es2, k);
    if i >= 0 {
        // updated in place: the first match is still at `i`
        assert(es2[i].0 == k);
        if j < i {
            assert(es2[j] == es[j]);
            assert(false);
        }
        if j > i {
            assert(es2[i].0 != k);
            assert(false);
        }
    } else {
        // appended at the end: every earlier entry still has another key
        assert(es2[es.len() as int].0 == k);
        if j < es.len() {
            assert(es2[j] == es[j]);
            assert(false);
        }
    }
}

/// Keys other than `k` are untouched by an upsert of `k`.
pub proof fn lemma_obj_set_other(
    es: Seq<(Seq<char>, JsonValueV)>,
    k: Seq<char>,
    val: JsonValueV,
    k2: Seq<char>,
)
    requires
        k2 != k,
    ensures
        obj_has_key(obj_set(es, k, val), k2) == obj_has_key(es, k2),
        obj_has_key(es, k2) ==> obj_get(obj_set(es, k, val), k2) == obj_get(es, k2),
{
    lemma_obj_key_index(es, k);
    lemma_obj_key_index(es, k2);
    let es2 = obj_set(es, k, val);
    lemma_obj_key_index(es2, k2);
    let i = obj_key_index(es, k);
    let m = obj_key_index(es, k2);
    let m2 = obj_key_index(es2, k2);
    if m >= 0 {
        assert(es2[m].0 == k2);
        if m2 < m {
            assert(es2[m2] == es[m2]);
            assert(false);
        }
        if m2 > m {
            assert(es2[m].0 != k2);
            assert(false);
        }
        assert(es2[m] == es[m]);
    } else {
        if m2 >= 0 {
            assert(es2[m2].0 == k2);
            if m2 < es.len() {
                assert(es2[m2] == es[m2]);
                assert(false);
            }
            assert(false);
        }
    }
}

/// No two entries share a key.
pub open spec fn obj_keys_unique(es: Seq<(Seq<char>, JsonValueV)>) -> bool {
    forall|i: int, j: int| 0 <= i < j < es.len() ==> (#[trigger] es[i]).0 != (#[trigger] es[j]).0
}

/// Well-formedness of a value tree: every object in it has pairwise
/// distinct keys.
pub open spec fn wf(v: JsonValueV) -> bool
    decreases v,
{
    match v {
        JsonValueV::Array(items) => forall|i: int|
            0 <= i < items.len() ==> wf(#[trigger] items[i]),
        JsonValueV::Object(es) => obj_keys_unique(es) && forall|i: int|
            0 <= i < es.len() ==> wf((#[trigger] es[i]).1),
        _ => true,
    }
}

/// With unique keys, removing `k` leaves no entry with that key.
pub proof fn lemma_obj_remove_absent(es: Seq<(Seq<char>, JsonValueV)>, k: Seq<char>)
    requires
        obj_keys_unique(es),
    ensures
        !obj_has_key(obj_remove(es, k), k),
{
    lemma_obj_key_index(es, k);
    if obj_has_key(es, k) {
        let i = obj_key_index(es, k);
        let es2 = es.remove(i);
        lemma_obj_key_index(es2, k);
        if obj_has_key(es2, k) {
            let j = obj_key_index(es2, k);
            assert(es2[j].0 == k);
            if j < i {
                assert(es2[j] == es[j]);
                assert(false);
            } else {
                assert(es2[j] == es[j + 1]);
                assert(es[i].0 == k);
                assert(false);
            }
        }
    } else {
        lemma_obj_key_index(obj_remove(es, k), k);
    }
}

} // verus!
