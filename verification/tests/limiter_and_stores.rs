use anystore::address::Address;
use anystore::address::PathAddress;
use anystore::address::SubAddress;
use anystore::address::UniqueRootAddress;
use anystore::cell::MemoryCellStore;
use anystore::fs::FileSystemStore;
use anystore::fs::RelativePath;
use anystore::indexed_vec::Id;
use anystore::indexed_vec::IndexedVecStore;
use anystore::ratelimiter::Admission;
use anystore::ratelimiter::Ratelimiter;
use anystore::store::AddressableRead;
use anystore::store::AddressableWrite;

#[test]
fn limiter_admits_up_to_capacity_then_waits() {
    // capacity 5, window 1000 ticks: the machine admits four calls after
    // the initial window opens, then tells the fifth to wait out the
    // window (the boundary counts capacity minus one inside one window)
    let mut limiter = Ratelimiter::new(1000, 5);
    assert_eq!(limiter.ask_step(1), Admission::Admit);
    assert_eq!(limiter.ask_step(2), Admission::Admit);
    assert_eq!(limiter.ask_step(3), Admission::Admit);
    assert_eq!(limiter.ask_step(4), Admission::Admit);
    assert_eq!(limiter.ask_step(5), Admission::Wait(995));
    assert_eq!(limiter.ask_step(900), Admission::Wait(100));

    // once the window has rolled over, the next call resets it and admits
    assert_eq!(limiter.ask_step(1001), Admission::Admit);
    assert_eq!(limiter.ask_step(1002), Admission::Admit);
    assert_eq!(limiter.ask_step(1003), Admission::Admit);
    assert_eq!(limiter.ask_step(1004), Admission::Admit);
    assert_eq!(limiter.ask_step(1005), Admission::Admit);
    assert_eq!(limiter.ask_step(1006), Admission::Wait(995));
}

#[test]
fn limiter_waits_exactly_the_window_remainder() {
    let mut limiter = Ratelimiter::new(10, 1);
    // capacity one: every in-window call waits out the remainder
    assert_eq!(limiter.ask_step(3), Admission::Wait(7));
    assert_eq!(limiter.ask_step(10), Admission::Wait(0));
    assert_eq!(limiter.ask_step(11), Admission::Admit);
}

#[test]
fn cell_store_round_trip() {
    let mut cell: MemoryCellStore<String> = MemoryCellStore::new(None);
    let before: Option<String> = cell.read(&UniqueRootAddress).unwrap();
    assert_eq!(before, None);
    cell.write(&UniqueRootAddress, &Some("hello".to_owned())).unwrap();
    let after: Option<String> = cell.read(&UniqueRootAddress).unwrap();
    assert_eq!(after, Some("hello".to_owned()));
    cell.write(&UniqueRootAddress, &None).unwrap();
    let gone: Option<String> = cell.read(&UniqueRootAddress).unwrap();
    assert_eq!(gone, None);
}

#[test]
fn indexed_vec_test() {
    let store = IndexedVecStore::new(vec![(1usize, "a"), (3usize, "z"), (2usize, "other")]);
    let found = store.read_by(|v: &(usize, &str)| v.0 == 2);
    assert_eq!(found, Some(&(2usize, "other")));
    let missing = store.read_by(|v: &(usize, &str)| v.0 == 5);
    assert_eq!(missing, None);
}

#[test]
fn id_address_renders_decimal() {
    let id = Id(42usize);
    assert_eq!(id.own_name(), "42");
    assert_eq!(id.as_parts(), vec!["42".to_owned()]);
}

#[test]
fn relative_path_components() {
    let p = RelativePath("src/stores/fs.rs".to_owned());
    assert_eq!(p.own_name(), "fs.rs");
    assert_eq!(
        p.as_parts(),
        vec!["src".to_owned(), "stores".to_owned(), "fs.rs".to_owned()]
    );
    let empty = RelativePath(String::new());
    assert_eq!(empty.own_name(), "");
    assert_eq!(empty.as_parts(), Vec::<String>::new());
}

#[test]
fn filesystem_store_joins_paths() {
    let store = FileSystemStore::new("/base".to_owned());
    let full = store.get_complete_path(RelativePath("a/b.txt".to_owned()));
    assert_eq!(full, "/base/a/b.txt");
    let rooted = FileSystemStore::new(String::new());
    assert_eq!(
        rooted.get_complete_path(RelativePath("x".to_owned())),
        "x"
    );
}

#[test]
fn relative_path_navigation() {
    let p = RelativePath("a".to_owned()).path("b/c").unwrap();
    assert_eq!(p.0, "a/b/c");
    let q = RelativePath("a".to_owned()).sub(RelativePath("d".to_owned()));
    assert_eq!(q.0, "a/d");
}
