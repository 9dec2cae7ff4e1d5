//! Traversal of the JSON value tree along structured paths: reading,
//! writing with container auto-creation, deletion with the array deletion
//! policy, and appending into arrays.

use vstd::prelude::*;

use crate::json_value::JsonKind;
use crate::json_value::JsonValue;
use crate::json_value::JsonValueV;
use crate::json_value::kind_of;
use crate::json_value::lemma_view_shape;
use crate::json_value::obj_get;
use crate::json_value::obj_has_key;
use crate::json_value::obj_key_index;
use crate::json_value::obj_remove;
use crate::json_value::obj_set;
use crate::json_value::lemma_obj_key_index;
use crate::json_value::lemma_obj_remove_absent;
use crate::json_value::lemma_obj_set_get;
use crate::json_value::wf;
use crate::paths::JsonPath;
use crate::paths::JsonPathPart;
use crate::paths::PathPartV;

verus! {

broadcast use vstd::std_specs::vec::axiom_vec_index_decreases, crate::json_value::lemma_view_shape;

/// Error raised when a path segment expects an object or an array but the
/// tree holds something else; carries the offending segment and the kind of
/// the conflicting value.
#[derive(Debug, PartialEq, Eq)]
pub enum JsonTraverseError {
    Incompatible(JsonPathPart, JsonKind),
}

impl View for JsonTraverseError {
    type V = (PathPartV, JsonKind);

    open spec fn view(&self) -> (PathPartV, JsonKind) {
        match self {
            JsonTraverseError::Incompatible(p, k) => (p@, *k),
        }
    }
}

/// One step of read traversal: absent on null or a missing key or an
/// out-of-range index, an error on a container-kind mismatch.
pub open spec fn get_sub_spec(v: JsonValueV, p: PathPartV) -> Result<
    Option<JsonValueV>,
    (PathPartV, JsonKind),
> {
    match p {
        PathPartV::Key(k) => match v {
            JsonValueV::Null => Ok(None),
            JsonValueV::Object(es) => if obj_has_key(es, k) {
                Ok(Some(obj_get(es, k)))
            } else {
                Ok(None)
            },
            _ => Err((p, kind_of(v))),
        },
        PathPartV::Index(i) => match v {
            JsonValueV::Null => Ok(None),
            JsonValueV::Array(items) => if 0 <= i < items.len() {
                Ok(Some(items[i]))
            } else {
                Ok(None)
            },
            _ => Err((p, kind_of(v))),
        },
    }
}

/// Read traversal along a whole path.
pub open spec fn get_path_spec(v: JsonValueV, path: Seq<PathPartV>) -> Result<
    Option<JsonValueV>,
    (PathPartV, JsonKind),
>
    decreases path.len(),
{
    if path.len() == 0 {
        Ok(Some(v))
    } else {
        match get_sub_spec(v, path[0]) {
            Ok(Some(sub)) => get_path_spec(sub, path.drop_first()),
            Ok(None) => Ok(None),
            Err(e) => Err(e),
        }
    }
}

/// `items` grown with nulls so that index `n - 1` exists.
pub open spec fn pad_nulls(items: Seq<JsonValueV>, n: int) -> Seq<JsonValueV> {
    if items.len() >= n {
        items
    } else {
        Seq::new(
            n as nat,
            |i: int|
                if 0 <= i < items.len() {
                    items[i]
                } else {
                    JsonValueV::Null
                },
        )
    }
}

/// Write traversal: intermediate containers are created as needed (an empty
/// object under a key step, an empty array under an index step, with null
/// padding up to the index), and the terminal slot is overwritten with `x`.
pub open spec fn set_path_spec(v: JsonValueV, path: Seq<PathPartV>, x: JsonValueV) -> Result<
    JsonValueV,
    (PathPartV, JsonKind),
>
    decreases path.len(),
{
    if path.len() == 0 {
        Ok(x)
    } else {
        match path[0] {
            PathPartV::Key(k) => {
                let base = if v is Null {
                    JsonValueV::Object(Seq::empty())
                } else {
                    v
                };
                match base {
                    JsonValueV::Object(es) => {
                        let cur = if obj_has_key(es, k) {
                            obj_get(es, k)
                        } else {
                            JsonValueV::Null
                        };
                        match set_path_spec(cur, path.drop_first(), x) {
                            Ok(sub) => Ok(JsonValueV::Object(obj_set(es, k, sub))),
                            Err(e) => Err(e),
                        }
                    },
                    _ => Err((path[0], kind_of(v))),
                }
            },
            PathPartV::Index(i) => {
                let base = if v is Null {
                    JsonValueV::Array(Seq::empty())
                } else {
                    v
                };
                match base {
                    JsonValueV::Array(items) => {
                        let padded = pad_nulls(items, i + 1);
                        match set_path_spec(padded[i], path.drop_first(), x) {
                            Ok(sub) => Ok(JsonValueV::Array(padded.update(i, sub))),
                            Err(e) => Err(e),
                        }
                    },
                    _ => Err((path[0], kind_of(v))),
                }
            },
        }
    }
}

/// Deletion at the final path segment: removing an object key, or applying
/// the array deletion policy (beyond the end: no-op; the last index: pop;
/// an interior index: overwrite with null, leaving a hole).
pub open spec fn delete_last_spec(v: JsonValueV, p: PathPartV) -> Result<
    JsonValueV,
    (PathPartV, JsonKind),
> {
    if v is Null {
        Ok(v)
    } else {
        match p {
            PathPartV::Key(k) => match v {
                JsonValueV::Object(es) => Ok(JsonValueV::Object(obj_remove(es, k))),
                _ => Err((p, kind_of(v))),
            },
            PathPartV::Index(i) => match v {
                JsonValueV::Array(items) => if i >= items.len() {
                    Ok(v)
                } else if i == items.len() - 1 {
                    Ok(JsonValueV::Array(items.drop_last()))
                } else {
                    Ok(JsonValueV::Array(items.update(i, JsonValueV::Null)))
                },
                _ => Err((p, kind_of(v))),
            },
        }
    }
}

/// Delete traversal: walks to the parent of the final segment without
/// creating anything (a missing step makes the whole delete a no-op),
/// replaces the whole tree by null when the path is empty, and otherwise
/// applies [`delete_last_spec`] at the parent.
pub open spec fn delete_path_spec(v: JsonValueV, path: Seq<PathPartV>) -> Result<
    JsonValueV,
    (PathPartV, JsonKind),
>
    decreases path.len(),
{
    if path.len() == 0 {
        Ok(JsonValueV::Null)
    } else if path.len() == 1 {
        delete_last_spec(v, path[0])
    } else {
        match path[0] {
            PathPartV::Key(k) => match v {
                JsonValueV::Null => Ok(v),
                JsonValueV::Object(es) => if obj_has_key(es, k) {
                    match delete_path_spec(obj_get(es, k), path.drop_first()) {
                        Ok(sub) => Ok(JsonValueV::Object(obj_set(es, k, sub))),
                        Err(e) => Err(e),
                    }
                } else {
                    Ok(v)
                },
                _ => Err((path[0], kind_of(v))),
            },
            PathPartV::Index(i) => match v {
                JsonValueV::Null => Ok(v),
                JsonValueV::Array(items) => if 0 <= i < items.len() {
                    match delete_path_spec(items[i], path.drop_first()) {
                        Ok(sub) => Ok(JsonValueV::Array(items.update(i, sub))),
                        Err(e) => Err(e),
                    }
                } else {
                    Ok(v)
                },
                _ => Err((path[0], kind_of(v))),
            },
        }
    }
}

/// Insert traversal: walks to the target with the same creation rules as a
/// write, requires an array there (null becomes an empty array), and
/// appends `items`; the second component is the index of the first
/// appended element.
pub open spec fn insert_path_spec(
    v: JsonValueV,
    path: Seq<PathPartV>,
    items: Seq<JsonValueV>,
) -> Result<(JsonValueV, int), (PathPartV, JsonKind)>
    decreases path.len(),
{
    if path.len() == 0 {
        let base = if v is Null {
            JsonValueV::Array(Seq::empty())
        } else {
            v
        };
        match base {
            JsonValueV::Array(old_items) => Ok(
                (JsonValueV::Array(old_items + items), old_items.len() as int),
            ),
            _ => Err((PathPartV::Index(0), kind_of(v))),
        }
    } else {
        match path[0] {
            PathPartV::Key(k) => {
                let base = if v is Null {
                    JsonValueV::Object(Seq::empty())
                } else {
                    v
                };
                match base {
                    JsonValueV::Object(es) => {
                        let cur = if obj_has_key(es, k) {
                            obj_get(es, k)
                        } else {
                            JsonValueV::Null
                        };
                        match insert_path_spec(cur, path.drop_first(), items) {
                            Ok(r) => Ok((JsonValueV::Object(obj_set(es, k, r.0)), r.1)),
                            Err(e) => Err(e),
                        }
                    },
                    _ => Err((path[0], kind_of(v))),
                }
            },
            PathPartV::Index(i) => {
                let base = if v is Null {
                    JsonValueV::Array(Seq::empty())
                } else {
                    v
                };
                match base {
                    JsonValueV::Array(arr) => {
                        let padded = pad_nulls(arr, i + 1);
                        match insert_path_spec(padded[i], path.drop_first(), items) {
                            Ok(r) => Ok((JsonValueV::Array(padded.update(i, r.0)), r.1)),
                            Err(e) => Err(e),
                        }
                    },
                    _ => Err((path[0], kind_of(v))),
                }
            },
        }
    }
}

/// Finds the position of key `k` among an object's entries.
#[verifier::loop_isolation(false)]
fn find_entry(entries: &Vec<(String, JsonValue)>, k: &String) -> (r: Option<usize>)
    ensures
        ({
            let es = JsonValue::Object(*entries)@->Object_0;
            match r {
                Some(i) => i < entries@.len() && obj_key_index(es, k@) == i as int,
                None => !obj_has_key(es, k@),
            }
        }),
{
    proof {
        lemma_view_shape(JsonValue::Object(*entries));
        lemma_obj_key_index(JsonValue::Object(*entries)@->Object_0, k@);
    }
    let ghost es = JsonValue::Object(*entries)@->Object_0;
    let mut i: usize = 0;
    while i < entries.len()
        invariant
            i <= entries@.len(),
            forall|m: int| 0 <= m < i as int ==> (#[trigger] es[m]).0 != k@,
        decreases entries@.len() - i,
    {
        if entries[i].0.eq(k) {
            proof {
                assert(es[i as int].0 == k@);
                if obj_key_index(es, k@) != i as int {
                    assert(false);
                }
            }
            return Some(i);
        }
        proof {
            assert(es[i as int].0 == entries@[i as int].0@);
        }
        i = i + 1;
    }
    proof {
        if obj_has_key(es, k@) {
            assert(es[obj_key_index(es, k@)].0 == k@);
            assert(false);
        }
    }
    None
}

/// One step of read traversal over a borrowed value.
#[verifier::loop_isolation(false)]
pub fn get_subvalue<'a>(cur: &'a JsonValue, next: &JsonPathPart) -> (r: Result<
    Option<&'a JsonValue>,
    JsonTraverseError,
>)
    ensures
        ({
            match r {
                Ok(Some(x)) => get_sub_spec(cur@, next@) == Ok::<_, (PathPartV, JsonKind)>(
                    Some(x@),
                ),
                Ok(None) => get_sub_spec(cur@, next@) == Ok::<Option<JsonValueV>, (
                    PathPartV,
                    JsonKind,
                )>(None),
                Err(e) => get_sub_spec(cur@, next@) == Err::<Option<JsonValueV>, _>(e@),
            }
        }),
{
    match next {
        JsonPathPart::Key(key) => {
            match cur {
                JsonValue::Null => Ok(None),
                JsonValue::Object(entries) => {
                    proof {
                        lemma_view_shape(*cur);
                    }
                    match find_entry(entries, key) {
                        Some(i) => {
                            proof {
                                assert(cur@->Object_0[i as int].1 == entries@[i as int].1@);
                            }
                            Ok(Some(&entries[i].1))
                        },
                        None => Ok(None),
                    }
                },
                _ => Err(JsonTraverseError::Incompatible(next.clone(), cur.kind())),
            }
        },
        JsonPathPart::Index(ix) => {
            match cur {
                JsonValue::Null => Ok(None),
                JsonValue::Array(items) => {
                    if *ix < items.len() {
                        proof {
                            assert(cur@->Array_0[*ix as int] == items@[*ix as int]@);
                        }
                        Ok(Some(&items[*ix]))
                    } else {
                        Ok(None)
                    }
                },
                _ => Err(JsonTraverseError::Incompatible(next.clone(), cur.kind())),
            }
        },
    }
}

/// Read traversal along `path`, starting at segment `from`: absence is a
/// legitimate `None`, a container-kind mismatch is an error.
#[verifier::loop_isolation(false)]
pub fn get_pathvalue<'a>(cur: &'a JsonValue, path: &JsonPath, from: usize) -> (r: Result<
    Option<&'a JsonValue>,
    JsonTraverseError,
>)
    requires
        from <= path@.len(),
    ensures
        ({
            match r {
                Ok(Some(x)) => get_path_spec(cur@, path@.skip(from as int)) == Ok::<_, (
                    PathPartV,
                    JsonKind,
                )>(Some(x@)),
                Ok(None) => get_path_spec(cur@, path@.skip(from as int)) == Ok::<
                    Option<JsonValueV>,
                    (PathPartV, JsonKind),
                >(None),
                Err(e) => get_path_spec(cur@, path@.skip(from as int)) == Err::<
                    Option<JsonValueV>,
                    _,
                >(e@),
            }
        }),
{
    let mut c: &JsonValue = cur;
    let mut i: usize = from;
    let n: usize = path.0.len();
    while i < n
        invariant
            from <= i <= n,
            get_path_spec(cur@, path@.skip(from as int)) == get_path_spec(
                c@,
                path@.skip(i as int),
            ),
        decreases n - i,
    {
        let ghost pre = path@.skip(i as int);
        proof {
            assert(pre[0] == path@[i as int]);
            assert(pre.drop_first() =~= path@.skip(i + 1 as int));
        }
        match get_subvalue(c, &path.0[i]) {
            Ok(Some(sub)) => {
                c = sub;
            },
            Ok(None) => {
                return Ok(None);
            },
            Err(e) => {
                return Err(e);
            },
        }
        i = i + 1;
    }
    proof {
        assert(path@.skip(n as int) =~= Seq::<PathPartV>::empty());
    }
    Ok(Some(c))
}

/// Write traversal from segment `from` on: creates missing containers and
/// overwrites the terminal slot with `x`.
#[verifier::loop_isolation(false)]
pub fn set_pathvalue(v: JsonValue, path: &JsonPath, from: usize, x: JsonValue) -> (r: Result<
    JsonValue,
    JsonTraverseError,
>)
    requires
        from <= path@.len(),
    ensures
        ({
            let spec_r = set_path_spec(v@, path@.skip(from as int), x@);
            match r {
                Ok(nv) => spec_r == Ok::<_, (PathPartV, JsonKind)>(nv@),
                Err(e) => spec_r == Err::<JsonValueV, _>(e@),
            }
        }),
    decreases path@.len() - from,
{
    let ghost v0 = v@;
    let ghost p = path@.skip(from as int);
    if from == path.0.len() {
        proof {
            assert(p =~= Seq::<PathPartV>::empty());
        }
        return Ok(x);
    }
    proof {
        assert(p[0] == path@[from as int]);
        assert(p.drop_first() =~= path@.skip(from + 1 as int));
    }
    match &path.0[from] {
        JsonPathPart::Key(k) => {
            let mut entries: Vec<(String, JsonValue)> = match v {
                JsonValue::Null => Vec::new(),
                JsonValue::Object(es) => es,
                other => {
                    return Err(
                        JsonTraverseError::Incompatible(path.0[from].clone(), other.kind()),
                    );
                },
            };
            let ghost es_v = if v0 is Null {
                Seq::<(Seq<char>, JsonValueV)>::empty()
            } else {
                v0->Object_0
            };
            proof {
                lemma_view_shape(JsonValue::Object(entries));
                assert(JsonValue::Object(entries)@->Object_0 =~= es_v);
            }
            match find_entry(&entries, k) {
                Some(i) => {
                    let ghost es_before = JsonValue::Object(entries)@->Object_0;
                    let entry: (String, JsonValue) = entries.remove(i);
                    proof {
                        assert(es_v[i as int] == (entry.0@, entry.1@));
                    }
                    match set_pathvalue(entry.1, path, from + 1, x) {
                        Ok(sub) => {
                            entries.insert(i, (entry.0, sub));
                            let res = JsonValue::Object(entries);
                            proof {
                                lemma_obj_key_index(es_v, k@);
                                assert(res@->Object_0 =~= obj_set(es_v, k@, sub@));
                            }
                            Ok(res)
                        },
                        Err(e) => Err(e),
                    }
                },
                None => {
                    match set_pathvalue(JsonValue::Null, path, from + 1, x) {
                        Ok(sub) => {
                            entries.push((k.clone(), sub));
                            let res = JsonValue::Object(entries);
                            proof {
                                assert(res@->Object_0 =~= obj_set(es_v, k@, sub@));
                            }
                            Ok(res)
                        },
                        Err(e) => Err(e),
                    }
                },
            }
        },
        JsonPathPart::Index(ix) => {
            let i: usize = *ix;
            let mut items: Vec<JsonValue> = match v {
                JsonValue::Null => Vec::new(),
                JsonValue::Array(arr) => arr,
                other => {
                    return Err(
                        JsonTraverseError::Incompatible(path.0[from].clone(), other.kind()),
                    );
                },
            };
            let ghost items_v = if v0 is Null {
                Seq::<JsonValueV>::empty()
            } else {
                v0->Array_0
            };
            proof {
                lemma_view_shape(JsonValue::Array(items));
                assert(JsonValue::Array(items)@->Array_0 =~= items_v);
                assert(pad_nulls(items_v, items@.len() as int) =~= items_v);
            }
            while items.len() <= i
                invariant
                    items@.len() >= items_v.len(),
                    items@.len() <= i + 1 || items@.len() == items_v.len(),
                    JsonValue::Array(items)@->Array_0 =~= pad_nulls(
                        items_v,
                        items@.len() as int,
                    ),
                decreases i + 1 - items@.len(),
            {
                let ghost before = JsonValue::Array(items)@->Array_0;
                items.push(JsonValue::Null);
                proof {
                    lemma_view_shape(JsonValue::Array(items));
                    assert(JsonValue::Array(items)@->Array_0 =~= before.push(JsonValueV::Null));
                    assert(pad_nulls(items_v, items@.len() as int) =~= before.push(
                        JsonValueV::Null,
                    ));
                }
            }
            let ghost padded = pad_nulls(items_v, i + 1 as int);
            proof {
                assert(padded =~= pad_nulls(items_v, items@.len() as int));
            }
            let old_item: JsonValue = items.remove(i);
            proof {
                assert(old_item@ == padded[i as int]);
            }
            match set_pathvalue(old_item, path, from + 1, x) {
                Ok(sub) => {
                    items.insert(i, sub);
                    let res = JsonValue::Array(items);
                    proof {
                        assert(res@->Array_0 =~= padded.update(i as int, sub@));
                    }
                    Ok(res)
                },
                Err(e) => Err(e),
            }
        },
    }
}

/// Deletion at the final segment of a path, over an owned parent value.
#[verifier::loop_isolation(false)]
fn delete_last(v: JsonValue, part: &JsonPathPart) -> (r: Result<JsonValue, JsonTraverseError>)
    ensures
        ({
            let spec_r = delete_last_spec(v@, part@);
            match r {
                Ok(nv) => spec_r == Ok::<_, (PathPartV, JsonKind)>(nv@),
                Err(e) => spec_r == Err::<JsonValueV, _>(e@),
            }
        }),
{
    let ghost v0 = v@;
    match (part, v) {
        (_, JsonValue::Null) => Ok(JsonValue::Null),
        (JsonPathPart::Key(k), JsonValue::Object(mut entries)) => {
            let ghost es_v = v0->Object_0;
            proof {
                lemma_view_shape(JsonValue::Object(entries));
                assert(JsonValue::Object(entries)@->Object_0 =~= es_v);
            }
            match find_entry(&entries, k) {
                Some(i) => {
                    let _removed: (String, JsonValue) = entries.remove(i);
                    let res = JsonValue::Object(entries);
                    proof {
                        assert(res@->Object_0 =~= obj_remove(es_v, k@));
                    }
                    Ok(res)
                },
                None => {
                    let res = JsonValue::Object(entries);
                    proof {
                        assert(res@->Object_0 =~= obj_remove(es_v, k@));
                    }
                    Ok(res)
                },
            }
        },
        (JsonPathPart::Index(ix), JsonValue::Array(mut items)) => {
            let i: usize = *ix;
            let ghost items_v = v0->Array_0;
            proof {
                lemma_view_shape(JsonValue::Array(items));
                assert(JsonValue::Array(items)@->Array_0 =~= items_v);
            }
            if i >= items.len() {
                let res = JsonValue::Array(items);
                proof {
                    assert(res@->Array_0 =~= items_v);
                }
                Ok(res)
            } else if i == items.len() - 1 {
                let _popped: Option<JsonValue> = items.pop();
                let res = JsonValue::Array(items);
                proof {
                    assert(res@->Array_0 =~= items_v.drop_last());
                }
                Ok(res)
            } else {
                let _removed: JsonValue = items.remove(i);
                items.insert(i, JsonValue::Null);
                let res = JsonValue::Array(items);
                proof {
                    assert(res@->Array_0 =~= items_v.update(i as int, JsonValueV::Null));
                }
                Ok(res)
            }
        },
        (p, other) => Err(JsonTraverseError::Incompatible(p.clone(), other.kind())),
    }
}

/// Delete traversal from segment `from` on: walks to the parent without
/// creating anything (a miss is a no-op), then removes the key or applies
/// the array deletion policy; an empty path replaces the whole tree by
/// null.
#[verifier::loop_isolation(false)]
pub fn delete_pathvalue(v: JsonValue, path: &JsonPath, from: usize) -> (r: Result<
    JsonValue,
    JsonTraverseError,
>)
    requires
        from <= path@.len(),
    ensures
        ({
            let spec_r = delete_path_spec(v@, path@.skip(from as int));
            match r {
                Ok(nv) => spec_r == Ok::<_, (PathPartV, JsonKind)>(nv@),
                Err(e) => spec_r == Err::<JsonValueV, _>(e@),
            }
        }),
    decreases path@.len() - from,
{
    let ghost v0 = v@;
    let ghost p = path@.skip(from as int);
    if from == path.0.len() {
        proof {
            assert(p =~= Seq::<PathPartV>::empty());
        }
        return Ok(JsonValue::Null);
    }
    proof {
        assert(p[0] == path@[from as int]);
        assert(p.drop_first() =~= path@.skip(from + 1 as int));
    }
    if from + 1 == path.0.len() {
        return delete_last(v, &path.0[from]);
    }
    match (&path.0[from], v) {
        (_, JsonValue::Null) => Ok(JsonValue::Null),
        (JsonPathPart::Key(k), JsonValue::Object(mut entries)) => {
            let ghost es_v = v0->Object_0;
            proof {
                lemma_view_shape(JsonValue::Object(entries));
                assert(JsonValue::Object(entries)@->Object_0 =~= es_v);
            }
            match find_entry(&entries, k) {
                Some(i) => {
                    let entry: (String, JsonValue) = entries.remove(i);
                    proof {
                        assert(es_v[i as int] == (entry.0@, entry.1@));
                    }
                    match delete_pathvalue(entry.1, path, from + 1) {
                        Ok(sub) => {
                            entries.insert(i, (entry.0, sub));
                            let res = JsonValue::Object(entries);
                            proof {
                                lemma_obj_key_index(es_v, k@);
                                assert(res@->Object_0 =~= obj_set(es_v, k@, sub@));
                            }
                            Ok(res)
                        },
                        Err(e) => Err(e),
                    }
                },
                None => {
                    let res = JsonValue::Object(entries);
                    proof {
                        assert(res@->Object_0 =~= es_v);
                    }
                    Ok(res)
                },
            }
        },
        (JsonPathPart::Index(ix), JsonValue::Array(mut items)) => {
            let i: usize = *ix;
            let ghost items_v = v0->Array_0;
            proof {
                lemma_view_shape(JsonValue::Array(items));
                assert(JsonValue::Array(items)@->Array_0 =~= items_v);
            }
            if i >= items.len() {
                let res = JsonValue::Array(items);
                proof {
                    assert(res@->Array_0 =~= items_v);
                }
                Ok(res)
            } else {
                let old_item: JsonValue = items.remove(i);
                proof {
                    assert(old_item@ == items_v[i as int]);
                }
                match delete_pathvalue(old_item, path, from + 1) {
                    Ok(sub) => {
                        items.insert(i, sub);
                        let res = JsonValue::Array(items);
                        proof {
                            assert(res@->Array_0 =~= items_v.update(i as int, sub@));
                        }
                        Ok(res)
                    },
                    Err(e) => Err(e),
                }
            }
        },
        (part, other) => Err(JsonTraverseError::Incompatible(part.clone(), other.kind())),
    }
}

/// Insert traversal from segment `from` on: creates missing containers on
/// the way, requires an array at the target (null becomes an empty array),
/// appends `items`, and returns the new value together with the index of
/// the first appended element.
#[verifier::loop_isolation(false)]
pub fn insert_pathvalue(v: JsonValue, path: &JsonPath, from: usize, items: Vec<JsonValue>) -> (r:
    Result<(JsonValue, usize), JsonTraverseError>)
    requires
        from <= path@.len(),
    ensures
        ({
            let spec_r = insert_path_spec(
                v@,
                path@.skip(from as int),
                Seq::new(items@.len(), |i: int| items@[i]@),
            );
            match r {
                Ok(nv) => spec_r == Ok::<_, (PathPartV, JsonKind)>((nv.0@, nv.1 as int))
                    && nv.1 + items@.len() <= usize::MAX,
                Err(e) => spec_r == Err::<(JsonValueV, int), _>(e@),
            }
        }),
    decreases path@.len() - from,
{
    let ghost v0 = v@;
    let ghost p = path@.skip(from as int);
    let ghost items_in = Seq::new(items@.len(), |i: int| items@[i]@);
    if from == path.0.len() {
        proof {
            assert(p =~= Seq::<PathPartV>::empty());
        }
        let mut arr: Vec<JsonValue> = match v {
            JsonValue::Null => Vec::new(),
            JsonValue::Array(a) => a,
            other => {
                return Err(JsonTraverseError::Incompatible(JsonPathPart::Index(0), other.kind()));
            },
        };
        let ghost arr_v = if v0 is Null {
            Seq::<JsonValueV>::empty()
        } else {
            v0->Array_0
        };
        proof {
            lemma_view_shape(JsonValue::Array(arr));
            assert(JsonValue::Array(arr)@->Array_0 =~= arr_v);
        }
        let start: usize = arr.len();
        let mut rest: Vec<JsonValue> = items;
        let mut taken: usize = 0;
        let n: usize = rest.len();
        while taken < n
            invariant
                taken <= n,
                n as int == rest@.len(),
                arr@.len() == start as int + taken as int,
                JsonValue::Array(arr)@->Array_0 =~= arr_v + items_in.take(taken as int),
                forall|m: int| 0 <= m < n as int ==> #[trigger] rest@[m]@ == items_in[m],
            decreases n - taken,
        {
            let ghost before = JsonValue::Array(arr)@->Array_0;
            let item: JsonValue = rest[taken].clone();
            arr.push(item);
            proof {
                lemma_view_shape(JsonValue::Array(arr));
                assert(item@ == items_in[taken as int]);
                assert(JsonValue::Array(arr)@->Array_0 =~= before.push(items_in[taken as int]));
                assert(items_in.take(taken + 1 as int) =~= items_in.take(taken as int).push(
                    items_in[taken as int],
                ));
                assert(JsonValue::Array(arr)@->Array_0 =~= arr_v + items_in.take(
                    taken + 1 as int,
                ));
            }
            taken = taken + 1;
        }
        let total: usize = arr.len();
        let res = JsonValue::Array(arr);
        proof {
            assert(start + n <= total);
            assert(items_in.take(items_in.len() as int) =~= items_in);
            assert(res@->Array_0 =~= arr_v + items_in);
        }
        return Ok((res, start));
    }
    proof {
        assert(p[0] == path@[from as int]);
        assert(p.drop_first() =~= path@.skip(from + 1 as int));
    }
    match &path.0[from] {
        JsonPathPart::Key(k) => {
            let mut entries: Vec<(String, JsonValue)> = match v {
                JsonValue::Null => Vec::new(),
                JsonValue::Object(es) => es,
                other => {
                    return Err(
                        JsonTraverseError::Incompatible(path.0[from].clone(), other.kind()),
                    );
                },
            };
            let ghost es_v = if v0 is Null {
                Seq::<(Seq<char>, JsonValueV)>::empty()
            } else {
                v0->Object_0
            };
            proof {
                lemma_view_shape(JsonValue::Object(entries));
                assert(JsonValue::Object(entries)@->Object_0 =~= es_v);
            }
            match find_entry(&entries, k) {
                Some(i) => {
                    let entry: (String, JsonValue) = entries.remove(i);
                    proof {
                        assert(es_v[i as int] == (entry.0@, entry.1@));
                    }
                    match insert_pathvalue(entry.1, path, from + 1, items) {
                        Ok((sub, start)) => {
                            entries.insert(i, (entry.0, sub));
                            let res = JsonValue::Object(entries);
                            proof {
                                lemma_obj_key_index(es_v, k@);
                                assert(res@->Object_0 =~= obj_set(es_v, k@, sub@));
                            }
                            Ok((res, start))
                        },
                        Err(e) => Err(e),
                    }
                },
                None => {
                    match insert_pathvalue(JsonValue::Null, path, from + 1, items) {
                        Ok((sub, start)) => {
                            entries.push((k.clone(), sub));
                            let res = JsonValue::Object(entries);
                            proof {
                                assert(res@->Object_0 =~= obj_set(es_v, k@, sub@));
                            }
                            Ok((res, start))
                        },
                        Err(e) => Err(e),
                    }
                },
            }
        },
        JsonPathPart::Index(ix) => {
            let i: usize = *ix;
            let mut arr: Vec<JsonValue> = match v {
                JsonValue::Null => Vec::new(),
                JsonValue::Array(a) => a,
                other => {
                    return Err(
                        JsonTraverseError::Incompatible(path.0[from].clone(), other.kind()),
                    );
                },
            };
            let ghost arr_v = if v0 is Null {
                Seq::<JsonValueV>::empty()
            } else {
                v0->Array_0
            };
            proof {
                lemma_view_shape(JsonValue::Array(arr));
                assert(JsonValue::Array(arr)@->Array_0 =~= arr_v);
                assert(pad_nulls(arr_v, arr@.len() as int) =~= arr_v);
            }
            while arr.len() <= i
                invariant
                    arr@.len() >= arr_v.len(),
                    arr@.len() <= i + 1 || arr@.len() == arr_v.len(),
                    JsonValue::Array(arr)@->Array_0 =~= pad_nulls(arr_v, arr@.len() as int),
                decreases i + 1 - arr@.len(),
            {
                let ghost before = JsonValue::Array(arr)@->Array_0;
                arr.push(JsonValue::Null);
                proof {
                    lemma_view_shape(JsonValue::Array(arr));
                    assert(JsonValue::Array(arr)@->Array_0 =~= before.push(JsonValueV::Null));
                    assert(pad_nulls(arr_v, arr@.len() as int) =~= before.push(
                        JsonValueV::Null,
                    ));
                }
            }
            let ghost padded = pad_nulls(arr_v, i + 1 as int);
            proof {
                assert(padded =~= pad_nulls(arr_v, arr@.len() as int));
            }
            let old_item: JsonValue = arr.remove(i);
            proof {
                assert(old_item@ == padded[i as int]);
            }
            match insert_pathvalue(old_item, path, from + 1, items) {
                Ok((sub, start)) => {
                    arr.insert(i, sub);
                    let res = JsonValue::Array(arr);
                    proof {
                        assert(res@->Array_0 =~= padded.update(i as int, sub@));
                    }
                    Ok((res, start))
                },
                Err(e) => Err(e),
            }
        },
    }
}

/// A path view is meaningful when its index parts are non-negative, as
/// every path built by parsing or composition is.
pub open spec fn path_wf(path: Seq<PathPartV>) -> bool {
    forall|j: int|
        0 <= j < path.len() ==> ((#[trigger] path[j]) is Index ==> path[j]->Index_0 >= 0)
}

/// Round trip: writing `x` at a path and then reading the same path gives
/// back exactly `x`, whenever the write succeeds. Every path built by
/// parsing or composition satisfies [`path_wf`]; the premise only rules
/// out ghost paths with negative indices, which no machine path has.
pub proof fn lemma_set_then_get(v: JsonValueV, path: Seq<PathPartV>, x: JsonValueV)
    requires
        path_wf(path),
        set_path_spec(v, path, x) is Ok,
    ensures
        get_path_spec(set_path_spec(v, path, x)->Ok_0, path) == Ok::<_, (PathPartV, JsonKind)>(
            Some(x),
        ),
    decreases path.len(),
{
    if path.len() == 0 {
    } else {
        match path[0] {
            PathPartV::Key(k) => {
                let es = if v is Null {
                    Seq::<(Seq<char>, JsonValueV)>::empty()
                } else {
                    v->Object_0
                };
                let cur = if obj_has_key(es, k) {
                    obj_get(es, k)
                } else {
                    JsonValueV::Null
                };
                assert forall|j: int| 0 <= j < path.drop_first().len() implies ((
                #[trigger] path.drop_first()[j]) is Index
                    ==> path.drop_first()[j]->Index_0 >= 0) by {
                    assert(path.drop_first()[j] == path[j + 1]);
                }
                lemma_set_then_get(cur, path.drop_first(), x);
                let sub = set_path_spec(cur, path.drop_first(), x)->Ok_0;
                lemma_obj_set_get(es, k, sub);
            },
            PathPartV::Index(i) => {
                let items = if v is Null {
                    Seq::<JsonValueV>::empty()
                } else {
                    v->Array_0
                };
                let padded = pad_nulls(items, i + 1);
                assert(0 <= i < padded.len());
                assert forall|j: int| 0 <= j < path.drop_first().len() implies ((
                #[trigger] path.drop_first()[j]) is Index
                    ==> path.drop_first()[j]->Index_0 >= 0) by {
                    assert(path.drop_first()[j] == path[j + 1]);
                }
                lemma_set_then_get(padded[i], path.drop_first(), x);
                let sub = set_path_spec(padded[i], path.drop_first(), x)->Ok_0;
                assert(padded.update(i, sub)[i] == sub);
            },
        }
    }
}

/// Deleting a path makes a read of that path come back absent, whenever the
/// delete succeeds -- except at an interior array index, where the deletion
/// policy leaves a null hole in place.
pub proof fn lemma_delete_then_get(v: JsonValueV, path: Seq<PathPartV>)
    requires
        wf(v),
        delete_path_spec(v, path) is Ok,
        path.len() > 0,
        match (path.last(), get_path_spec(v, path.drop_last())) {
            (PathPartV::Index(i), Ok(Some(JsonValueV::Array(items)))) => i >= items.len() - 1,
            _ => true,
        },
    ensures
        get_path_spec(delete_path_spec(v, path)->Ok_0, path) == Ok::<Option<JsonValueV>, (
            PathPartV,
            JsonKind,
        )>(None),
    decreases path.len(),
{
    let nv = delete_path_spec(v, path)->Ok_0;
    if path.len() == 1 {
        assert(path.drop_last() =~= Seq::<PathPartV>::empty());
        if v is Null {
        } else {
            match path[0] {
                PathPartV::Key(k) => {
                    let es = v->Object_0;
                    lemma_obj_remove_absent(es, k);
                    assert(path.drop_first() =~= Seq::<PathPartV>::empty());
                },
                PathPartV::Index(i) => {
                },
            }
        }
    } else {
        let rest = path.drop_first();
        assert(rest.len() == path.len() - 1);
        assert(path.last() == rest.last());
        match path[0] {
            PathPartV::Key(k) => {
                if v is Null {
                } else if v is Object {
                    let es = v->Object_0;
                    if obj_has_key(es, k) {
                        let child = obj_get(es, k);
                        lemma_obj_key_index(es, k);
                        assert(wf(child));
                        // the exclusion premise carries over to the child
                        assert(path.drop_last()[0] == path[0]);
                        assert(path.drop_last().drop_first() =~= rest.drop_last());
                        assert(get_path_spec(v, path.drop_last()) == get_path_spec(
                            child,
                            rest.drop_last(),
                        ));
                        lemma_delete_then_get(child, rest);
                        let sub = delete_path_spec(child, rest)->Ok_0;
                        lemma_obj_set_get(es, k, sub);
                    }
                }
            },
            PathPartV::Index(i) => {
                if v is Null {
                } else if v is Array {
                    let items = v->Array_0;
                    if 0 <= i < items.len() {
                        let child = items[i];
                        assert(wf(child));
                        assert(path.drop_last()[0] == path[0]);
                        assert(path.drop_last().drop_first() =~= rest.drop_last());
                        assert(get_path_spec(v, path.drop_last()) == get_path_spec(
                            child,
                            rest.drop_last(),
                        ));
                        lemma_delete_then_get(child, rest);
                        let sub = delete_path_spec(child, rest)->Ok_0;
                        assert(items.update(i, sub)[i] == sub);
                    }
                }
            },
        }
    }
}

/// The array deletion policy, spelled out on a one-segment path: an index
/// beyond the end is a no-op, the last index pops, and an interior index
/// leaves a null in place.
pub proof fn lemma_delete_array_policy(items: Seq<JsonValueV>, i: int)
    requires
        i >= 0,
        items.len() > 0,
    ensures
        delete_path_spec(JsonValueV::Array(items), seq![PathPartV::Index(i)]) == Ok::<_, (
            PathPartV,
            JsonKind,
        )>(
            JsonValueV::Array(
                if i >= items.len() {
                    items
                } else if i == items.len() - 1 {
                    items.drop_last()
                } else {
                    items.update(i, JsonValueV::Null)
                },
            ),
        ),
{
    assert(seq![PathPartV::Index(i)][0] == PathPartV::Index(i));
}

/// Extending a read path by one segment reads one step further: if `path`
/// resolves to `v`, then `path` extended by `part` resolves as one
/// [`get_sub_spec`] step from `v`.
pub proof fn lemma_get_path_snoc(m: JsonValueV, path: Seq<PathPartV>, part: PathPartV)
    requires
        get_path_spec(m, path) matches Ok(Some(_)),
    ensures
        get_path_spec(m, path.push(part)) == match get_sub_spec(
            get_path_spec(m, path)->Ok_0->Some_0,
            part,
        ) {
            Ok(Some(c)) => Ok::<Option<JsonValueV>, (PathPartV, JsonKind)>(Some(c)),
            Ok(None) => Ok(None),
            Err(e) => Err(e),
        },
    decreases path.len(),
{
    reveal_with_fuel(get_path_spec, 3);
    if path.len() == 0 {
        assert(path.push(part)[0] == part);
        assert(path.push(part).drop_first() =~= Seq::<PathPartV>::empty());
    } else {
        assert(path.push(part)[0] == path[0]);
        assert(path.push(part).drop_first() =~= path.drop_first().push(part));
        assert(get_sub_spec(m, path[0]) matches Ok(Some(_)));
        let sub = get_sub_spec(m, path[0])->Ok_0->Some_0;
        assert(get_path_spec(m, path) == get_path_spec(sub, path.drop_first()));
        assert(get_path_spec(m, path.push(part)) == get_path_spec(
            sub,
            path.drop_first().push(part),
        ));
        lemma_get_path_snoc(sub, path.drop_first(), part);
    }
}

} // verus!
