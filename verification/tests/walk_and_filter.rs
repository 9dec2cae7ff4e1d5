use anystore::address::BranchOrLeaf;
use anystore::address::PathAddress;
use anystore::filter_addresses::FilterAddressesWrapperError;
use anystore::filter_addresses::FilterAddressesWrapperStore;
use anystore::filter_addresses::HideKeyPrefix;
use anystore::json_store::JsonValueStore;
use anystore::json_value::JsonValue;
use anystore::location::Location;
use anystore::paths::JsonPath;
use anystore::store::AddressableList;
use anystore::store::AddressableRead;
use anystore::store::AddressableWrite;
use anystore::store::StoreEx;

fn parse(s: &str) -> JsonPath {
    JsonPath::root().path(s).unwrap()
}

fn num(n: i64) -> JsonValue {
    JsonValue::Number(n)
}

fn text(s: &str) -> JsonValue {
    JsonValue::String(s.to_owned())
}

fn arr(items: Vec<JsonValue>) -> JsonValue {
    JsonValue::Array(items)
}

fn obj(entries: Vec<(&str, JsonValue)>) -> JsonValue {
    JsonValue::Object(entries.into_iter().map(|(k, v)| (k.to_owned(), v)).collect())
}

fn hide_underscores(
    store: JsonValueStore,
) -> FilterAddressesWrapperStore<JsonValueStore, HideKeyPrefix> {
    FilterAddressesWrapperStore::new(store, HideKeyPrefix { prefix: '_' })
}

fn rendered(item: &BranchOrLeaf<JsonPath, JsonPath>) -> String {
    match item {
        BranchOrLeaf::Branch(p) => p.render(),
        BranchOrLeaf::Leaf(p) => p.render(),
    }
}

#[test]
fn filter_suppresses_listing_and_reads() {
    let store = hide_underscores(JsonValueStore::new(obj(vec![
        ("a", num(1)),
        ("_b", num(2)),
    ])));

    let pairs = store.list(&JsonPath::root()).unwrap();
    let names: Vec<String> = pairs.iter().map(|p| p.0.to_key()).collect();
    assert_eq!(names, vec!["a".to_owned()]);

    // the underlying value exists, but reads of it come back absent
    let hidden: Option<JsonValue> = store.read(&parse("_b")).unwrap();
    assert_eq!(hidden, None);
    let visible: Option<JsonValue> = store.read(&parse("a")).unwrap();
    assert_eq!(visible, Some(num(1)));

    // an error of the underlying store passes through, wrapped
    let err = AddressableRead::<JsonValue, _>::read(&store, &parse("a.b")).unwrap_err();
    assert!(matches!(err, FilterAddressesWrapperError::StoreError(_)));
}

#[test]
fn filter_rejects_suppressed_writes() {
    let mut store = hide_underscores(JsonValueStore::new(obj(vec![("a", num(1))])));
    let err = store.write(&parse("_hidden"), &Some(num(5))).unwrap_err();
    assert!(matches!(
        err,
        FilterAddressesWrapperError::WriteToIgnoredLocation(_)
    ));
    let ok: Option<JsonValue> = store.read(&parse("a")).unwrap();
    assert_eq!(ok, Some(num(1)));
}

#[test]
fn walk_preorder_branches_before_descendants() {
    let store = JsonValueStore::new(obj(vec![
        ("a", obj(vec![("b", num(1))])),
        ("c", arr(vec![num(1), num(2)])),
    ]));
    let items = store.root().walk_tree_recursively().unwrap();
    let names: Vec<String> = items.iter().map(rendered).collect();
    assert_eq!(
        names,
        vec![
            "a".to_owned(),
            "a.b".to_owned(),
            "c".to_owned(),
            "c[0]".to_owned(),
            "c[1]".to_owned(),
        ]
    );
    assert!(matches!(items[0], BranchOrLeaf::Branch(_)));
    assert!(matches!(items[1], BranchOrLeaf::Leaf(_)));
    assert!(matches!(items[2], BranchOrLeaf::Branch(_)));
    assert!(matches!(items[3], BranchOrLeaf::Leaf(_)));
    assert!(matches!(items[4], BranchOrLeaf::Leaf(_)));
}

#[test]
fn tree_test() {
    let val = obj(vec![
        ("wow", obj(vec![("hello", text("yes"))])),
        (
            "another",
            obj(vec![
                ("seriously", obj(vec![("throrougly", num(7))])),
                (
                    "basic",
                    arr(vec![
                        num(1),
                        num(2),
                        num(3),
                        obj(vec![("hello", text("_why"))]),
                        obj(vec![("_why", text("ya"))]),
                    ]),
                ),
            ]),
        ),
        ("_ignore", obj(vec![("haha", obj(vec![("_yes", num(3))]))])),
    ]);
    let store = hide_underscores(JsonValueStore::new(val));
    let root: Location<JsonPath, _> = store.root();

    let all_paths: Vec<String> = root
        .walk_tree_recursively()
        .unwrap()
        .iter()
        .map(rendered)
        .collect();

    assert!(all_paths.contains(&"another.basic[2]".to_owned()));
    assert!(all_paths.contains(&"another".to_owned()));
    assert!(!all_paths.contains(&"_ignore".to_owned()));
    assert!(!all_paths.contains(&"_ignore.haha".to_owned()));
    assert!(!all_paths.contains(&"another.basic[4]._why".to_owned()));
    assert!(all_paths.contains(&"wow.hello".to_owned()));
    assert!(!all_paths.contains(&"wow.hello.nonexistent".to_owned()));
    assert!(all_paths.contains(&"another.basic[3].hello".to_owned()));
}

#[test]
fn test_json_tree() {
    let val = obj(vec![
        ("wow", obj(vec![("hello", text("yes"))])),
        (
            "another",
            obj(vec![
                ("seriously", obj(vec![("throrougly", num(7))])),
                (
                    "basic",
                    arr(vec![
                        num(1),
                        num(2),
                        num(3),
                        obj(vec![("hello", text("_why"))]),
                        obj(vec![("_why", text("ya"))]),
                    ]),
                ),
            ]),
        ),
        ("_ignore", obj(vec![("haha", obj(vec![("_yes", num(3))]))])),
    ]);
    let mut store = hide_underscores(JsonValueStore::new(val));
    let some_addr = parse("wow.hello");

    let before: Option<JsonValue> = store.read(&some_addr).unwrap();
    assert_eq!(before, Some(text("yes")));

    store.write(&some_addr, &Some(text("no"))).unwrap();
    let exists: Option<anystore::address::Existence> = store.read(&some_addr).unwrap();
    assert!(exists.is_some());

    store.write(&some_addr, &Some(JsonValue::Null)).unwrap();
    let exists: Option<anystore::address::Existence> = store.read(&some_addr).unwrap();
    assert!(exists.is_some());

    store.write(&some_addr, &None).unwrap();
    let exists: Option<anystore::address::Existence> = store.read(&some_addr).unwrap();
    assert!(exists.is_none());
}

#[test]
fn walk_of_scalar_root_fails() {
    let store = JsonValueStore::new(num(3));
    let r = store.root().walk_tree_recursively();
    assert!(r.is_err());
}

#[test]
fn store_path_navigation() {
    let store = JsonValueStore::new(obj(vec![("a", obj(vec![("b", num(5))]))]));
    let loc: Location<JsonPath, JsonValueStore> = store.path("a.b").unwrap();
    let v: Option<JsonValue> = loc.get().unwrap();
    assert_eq!(v, Some(num(5)));
    assert!(store.path::<JsonPath, _>("a]").is_err());
}

#[test]
fn location_exists_at() {
    let store = JsonValueStore::new(obj(vec![("a", num(1))]));
    let loc: Location<JsonPath, JsonValueStore> = store.sub(parse("a"));
    assert!(loc.exists_at().unwrap());
    let missing: Location<JsonPath, JsonValueStore> = store.sub(parse("b"));
    assert!(!missing.exists_at().unwrap());
}
