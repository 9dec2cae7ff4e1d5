use anystore::address::PathAddress;
use anystore::json_store::JsonValueStore;
use anystore::json_store::JsonValueStoreError;
use anystore::json_value::JsonKind;
use anystore::json_value::JsonValue;
use anystore::paths::JsonPath;
use anystore::paths::JsonPathPart;
use anystore::store::AddressableInsert;
use anystore::store::AddressableList;
use anystore::store::AddressableRead;
use anystore::store::AddressableWrite;
use anystore::traverse::JsonTraverseError;

fn parse(s: &str) -> JsonPath {
    JsonPath::root().path(s).unwrap()
}

fn num(n: i64) -> JsonValue {
    JsonValue::Number(n)
}

fn text(s: &str) -> JsonValue {
    JsonValue::String(s.to_owned())
}

fn arr(items: Vec<JsonValue>) -> JsonValue {
    JsonValue::Array(items)
}

fn obj(entries: Vec<(&str, JsonValue)>) -> JsonValue {
    JsonValue::Object(entries.into_iter().map(|(k, v)| (k.to_owned(), v)).collect())
}

fn read(store: &JsonValueStore, path: &str) -> Option<JsonValue> {
    AddressableRead::<JsonValue, JsonPath>::read(store, &parse(path)).unwrap()
}

#[test]
fn write_then_read_round_trip() {
    let mut store = JsonValueStore::new(JsonValue::Null);
    store.write(&parse("a.b"), &Some(num(7))).unwrap();
    assert_eq!(read(&store, "a.b"), Some(num(7)));
    // intermediate containers were created on the way
    assert_eq!(read(&store, "a"), Some(obj(vec![("b", num(7))])));
}

#[test]
fn delete_vs_null_distinction() {
    let mut store = JsonValueStore::new(JsonValue::Null);
    store.write(&parse("a.b"), &Some(num(7))).unwrap();

    // writing an explicit null keeps the slot present
    store.write(&parse("a.b"), &Some(JsonValue::Null)).unwrap();
    assert_eq!(read(&store, "a.b"), Some(JsonValue::Null));

    // deleting removes it: a read comes back absent
    store.write(&parse("a.b"), &None).unwrap();
    assert_eq!(read(&store, "a.b"), None);
    assert_eq!(read(&store, "a"), Some(obj(vec![])));
}

#[test]
fn array_deletion_policy() {
    let fresh = || JsonValueStore::new(obj(vec![("arr", arr(vec![num(1), num(2), num(3)]))]));

    // deleting the last index pops
    let mut s1 = fresh();
    s1.write(&parse("arr[2]"), &None).unwrap();
    assert_eq!(read(&s1, "arr"), Some(arr(vec![num(1), num(2)])));

    // deleting an interior index leaves a null hole, indices unshifted
    let mut s2 = fresh();
    s2.write(&parse("arr[0]"), &None).unwrap();
    assert_eq!(read(&s2, "arr"), Some(arr(vec![JsonValue::Null, num(2), num(3)])));

    // deleting beyond the end is a no-op
    let mut s3 = fresh();
    s3.write(&parse("arr[5]"), &None).unwrap();
    assert_eq!(read(&s3, "arr"), Some(arr(vec![num(1), num(2), num(3)])));
}

#[test]
fn delete_root_clears_tree() {
    let mut store = JsonValueStore::new(obj(vec![("a", num(1))]));
    store.write(&JsonPath::root(), &None).unwrap();
    assert_eq!(read(&store, ""), Some(JsonValue::Null));
}

#[test]
fn delete_of_missing_parent_is_noop() {
    let mut store = JsonValueStore::new(obj(vec![("a", num(1))]));
    store.write(&parse("b.c.d"), &None).unwrap();
    assert_eq!(read(&store, ""), Some(obj(vec![("a", num(1))])));
}

#[test]
fn write_grows_arrays_with_nulls() {
    let mut store = JsonValueStore::new(JsonValue::Null);
    store.write(&parse("a[2]"), &Some(num(9))).unwrap();
    assert_eq!(
        read(&store, "a"),
        Some(arr(vec![JsonValue::Null, JsonValue::Null, num(9)]))
    );
}

#[test]
fn structural_mismatch_is_an_error() {
    let mut store = JsonValueStore::new(obj(vec![("a", num(1))]));
    let err = AddressableRead::<JsonValue, JsonPath>::read(&store, &parse("a.b")).unwrap_err();
    assert_eq!(
        err,
        JsonValueStoreError::Traverse(JsonTraverseError::Incompatible(
            JsonPathPart::Key("b".to_owned()),
            JsonKind::Number,
        ))
    );
    // a failed write leaves the store unchanged
    let before = read(&store, "");
    let werr = store.write(&parse("a.b"), &Some(num(2))).unwrap_err();
    assert_eq!(
        werr,
        JsonValueStoreError::Traverse(JsonTraverseError::Incompatible(
            JsonPathPart::Key("b".to_owned()),
            JsonKind::Number,
        ))
    );
    assert_eq!(read(&store, ""), before);
}

#[test]
fn list_children_in_order() {
    let store = JsonValueStore::new(obj(vec![
        ("a", num(1)),
        ("b", obj(vec![("x", num(2))])),
    ]));
    let pairs = store.list(&JsonPath::root()).unwrap();
    let names: Vec<String> = pairs.iter().map(|p| p.0.to_key()).collect();
    assert_eq!(names, vec!["a".to_owned(), "b".to_owned()]);
    let full: Vec<String> = pairs.iter().map(|p| p.1.render()).collect();
    assert_eq!(full, vec!["a".to_owned(), "b".to_owned()]);

    let arr_pairs = store.list(&parse("b")).unwrap();
    assert_eq!(arr_pairs.len(), 1);
    assert_eq!(arr_pairs[0].1.render(), "b.x");
}

#[test]
fn list_errors() {
    let store = JsonValueStore::new(obj(vec![("a", num(1))]));
    assert_eq!(
        store.list(&parse("missing")).unwrap_err(),
        JsonValueStoreError::NotFound
    );
    assert_eq!(
        store.list(&parse("a")).unwrap_err(),
        JsonValueStoreError::NotListable(JsonKind::Number)
    );
}

#[test]
fn json_test() {
    // appending into an existing list yields the new addresses in order
    let mut store = JsonValueStore::new(obj(vec![
        ("test", obj(vec![("a", num(2))])),
        (
            "list",
            arr(vec![
                obj(vec![("a", num(8))]),
                obj(vec![("b", num(2))]),
                obj(vec![("a", num(3))]),
            ]),
        ),
    ]));

    let vc = store
        .insert(
            &parse("list"),
            vec![
                obj(vec![("a", num(1))]),
                obj(vec![("b", num(2))]),
                obj(vec![("a", num(3))]),
            ],
        )
        .unwrap();

    assert_eq!(vc.len(), 3);
    assert_eq!(vc[0].0.render(), "[3]");
    assert_eq!(vc[1].1.render(), "list[4]");

    // appending under a missing path creates the array on the way
    let vc = store
        .insert(
            &parse("test.deeper"),
            vec![obj(vec![("a", num(1))]), obj(vec![("b", num(2))])],
        )
        .unwrap();

    assert_eq!(vc.len(), 2);
    assert_eq!(vc[0].0.render(), "[0]");
    assert_eq!(vc[1].1.render(), "test.deeper[1]");
}

#[test]
fn insert_into_scalar_fails() {
    let mut store = JsonValueStore::new(obj(vec![("a", num(1))]));
    let err = store.insert(&parse("a"), vec![num(2)]).unwrap_err();
    assert!(matches!(err, JsonValueStoreError::Traverse(_)));
}

#[test]
fn equal_keys_resolve_to_first() {
    // a hand-built object with a repeated key: lookups follow the first
    let store = JsonValueStore::new(JsonValue::Object(vec![
        ("k".to_owned(), num(1)),
        ("k".to_owned(), num(2)),
    ]));
    assert_eq!(read(&store, "k"), Some(num(1)));
}

#[test]
fn string_number_bool_scalars() {
    let mut store = JsonValueStore::new(JsonValue::Null);
    store.write(&parse("s"), &Some(text("hello"))).unwrap();
    store.write(&parse("b"), &Some(JsonValue::Bool(true))).unwrap();
    assert_eq!(read(&store, "s"), Some(text("hello")));
    assert_eq!(read(&store, "b"), Some(JsonValue::Bool(true)));
}
