use anystore::address::Address;
use anystore::address::PathAddress;
use anystore::address::SubAddress;
use anystore::paths::JsonPath;
use anystore::paths::JsonPathPart;
use anystore::paths::usize_to_string;

fn parse(s: &str) -> Result<JsonPath, anystore::paths::JsonPathParseError> {
    JsonPath::root().path(s)
}

#[test]
fn parse_dotted_and_bracketed() {
    let p = parse("a.b[2].c").unwrap();
    assert_eq!(
        p.0,
        vec![
            JsonPathPart::Key("a".to_owned()),
            JsonPathPart::Key("b".to_owned()),
            JsonPathPart::Index(2),
            JsonPathPart::Key("c".to_owned()),
        ]
    );
}

#[test]
fn parse_consecutive_indices() {
    let p = parse("x[0][1]").unwrap();
    assert_eq!(
        p.0,
        vec![
            JsonPathPart::Key("x".to_owned()),
            JsonPathPart::Index(0),
            JsonPathPart::Index(1),
        ]
    );
}

#[test]
fn parse_mismatched_bracket_fails() {
    let e = parse("a]").unwrap_err();
    assert_eq!(e.0, "mismatched ]");
}

#[test]
fn parse_bad_index_fails() {
    let e = parse("a[x]").unwrap_err();
    assert_eq!(e.0, "error parsing index");
    let e2 = parse("a[]").unwrap_err();
    assert_eq!(e2.0, "error parsing index");
}

#[test]
fn parse_empty_and_root() {
    let p = parse("").unwrap();
    assert_eq!(p.0, vec![]);
    let only_index = parse("[3]").unwrap();
    assert_eq!(only_index.0, vec![JsonPathPart::Index(3)]);
}

#[test]
fn parse_appends_to_base() {
    let base = parse("a").unwrap();
    let p = base.path("b[1]").unwrap();
    assert_eq!(
        p.0,
        vec![
            JsonPathPart::Key("a".to_owned()),
            JsonPathPart::Key("b".to_owned()),
            JsonPathPart::Index(1),
        ]
    );
}

#[test]
fn render_round_trips_simple_paths() {
    let p = parse("a.b[2].c").unwrap();
    assert_eq!(p.render(), "a.b[2].c");
    let q = parse("x[0][1]").unwrap();
    assert_eq!(q.render(), "x[0][1]");
    assert_eq!(parse("").unwrap().render(), "");
}

#[test]
fn part_to_key_and_render() {
    assert_eq!(JsonPathPart::Key("hi".to_owned()).to_key(), "hi");
    assert_eq!(JsonPathPart::Index(42).to_key(), "42");
    assert_eq!(JsonPathPart::Key("hi".to_owned()).render(), ".hi");
    assert_eq!(JsonPathPart::Index(42).render(), "[42]");
}

#[test]
fn own_name_and_parts() {
    let p = parse("a.b[2]").unwrap();
    assert_eq!(p.own_name(), "[2]");
    assert_eq!(p.as_parts(), vec![".a".to_owned(), ".b".to_owned(), "[2]".to_owned()]);
    assert_eq!(JsonPath::root().own_name(), "");
}

#[test]
fn last_part() {
    let p = parse("a.b").unwrap();
    assert_eq!(p.last(), Some(JsonPathPart::Key("b".to_owned())));
    assert_eq!(JsonPath::root().last(), None);
}

#[test]
fn sub_composition() {
    let p = JsonPath::root()
        .sub(JsonPathPart::Key("subkey".to_owned()))
        .sub(JsonPathPart::Index(2));
    assert_eq!(p.render(), "subkey[2]");
    let q: JsonPath = parse("a").unwrap().sub(parse("b.c").unwrap());
    assert_eq!(q.render(), "a.b.c");
}

#[test]
fn decimal_rendering() {
    assert_eq!(usize_to_string(0), "0");
    assert_eq!(usize_to_string(7), "7");
    assert_eq!(usize_to_string(910), "910");
    assert_eq!(usize_to_string(usize::MAX), usize::MAX.to_string());
}

#[test]
fn parse_huge_index_fails() {
    // a number that cannot fit a machine index is a parse error
    let e = parse("a[99999999999999999999999999]").unwrap_err();
    assert_eq!(e.0, "error parsing index");
}
