use anystore::address::Address;
use anystore::address::SubAddress;
use anystore::airtable::AirtableBase;
use anystore::airtable::AirtableBasesRootAddr;
use anystore::airtable::AirtableRecord;
use anystore::airtable::AirtableStoreError;
use anystore::airtable::AirtableTable;
use anystore::airtable::FilterByFormula;
use anystore::airtable::build_insert_records;
use anystore::airtable::chunk_batches;
use anystore::airtable::paginate_step;
use anystore::airtable::parse_insert_response;
use anystore::json_value::JsonValue;

fn num(n: i64) -> JsonValue {
    JsonValue::Number(n)
}

fn text(s: &str) -> JsonValue {
    JsonValue::String(s.to_owned())
}

fn arr(items: Vec<JsonValue>) -> JsonValue {
    JsonValue::Array(items)
}

fn obj(entries: Vec<(&str, JsonValue)>) -> JsonValue {
    JsonValue::Object(entries.into_iter().map(|(k, v)| (k.to_owned(), v)).collect())
}

#[test]
fn paginate_step_extracts_items_and_offset() {
    let resp = obj(vec![
        (
            "records",
            arr(vec![
                obj(vec![("id", text("r1")), ("name", text("x"))]),
                obj(vec![("id", text("r2")), ("name", text("y"))]),
            ]),
        ),
        ("offset", text("next-page")),
    ]);
    let (items, offset) = paginate_step(&resp, "records").unwrap();
    assert_eq!(items.len(), 2);
    assert_eq!(items[0].0, "r1");
    assert_eq!(items[1].0, "r2");
    assert_eq!(items[1].1, obj(vec![("id", text("r2")), ("name", text("y"))]));
    assert_eq!(offset, Some("next-page".to_owned()));
}

#[test]
fn paginate_step_without_offset_ends_pagination() {
    let resp = obj(vec![("records", arr(vec![]))]);
    let (items, offset) = paginate_step(&resp, "records").unwrap();
    assert_eq!(items.len(), 0);
    assert_eq!(offset, None);
}

#[test]
fn paginate_step_rejects_bad_responses() {
    let missing = obj(vec![("other", num(1))]);
    assert!(matches!(
        paginate_step(&missing, "records").unwrap_err(),
        AirtableStoreError::Custom(_)
    ));

    let not_a_list = obj(vec![("records", num(1))]);
    assert!(paginate_step(&not_a_list, "records").is_err());

    let item_without_id = obj(vec![("records", arr(vec![obj(vec![("name", text("x"))])]))]);
    assert!(paginate_step(&item_without_id, "records").is_err());
}

#[test]
fn chunking_respects_the_batch_limit() {
    let items: Vec<JsonValue> = (0..25).map(num).collect();
    let batches = chunk_batches(items);
    assert_eq!(batches.len(), 3);
    assert_eq!(batches[0].len(), 10);
    assert_eq!(batches[1].len(), 10);
    assert_eq!(batches[2].len(), 5);
    assert_eq!(batches[0][0], num(0));
    assert_eq!(batches[1][0], num(10));
    assert_eq!(batches[2][4], num(24));

    assert_eq!(chunk_batches(vec![]).len(), 0);
    assert_eq!(chunk_batches(vec![num(1)]).len(), 1);
    let exactly_ten = chunk_batches((0..10).map(num).collect());
    assert_eq!(exactly_ten.len(), 1);
    assert_eq!(exactly_ten[0].len(), 10);
}

#[test]
fn insert_request_wraps_fields() {
    let body = build_insert_records(vec![num(1), text("two")]);
    assert_eq!(
        body,
        obj(vec![(
            "records",
            arr(vec![
                obj(vec![("fields", num(1))]),
                obj(vec![("fields", text("two"))]),
            ]),
        )])
    );
}

#[test]
fn insert_response_parses_ids_and_fields() {
    let resp = obj(vec![(
        "records",
        arr(vec![
            obj(vec![("id", text("rec1")), ("fields", obj(vec![("a", text("b"))]))]),
            obj(vec![("id", text("rec2"))]),
        ]),
    )]);
    let records = parse_insert_response(&resp).unwrap();
    assert_eq!(records.len(), 2);
    assert_eq!(records[0].0, "rec1");
    assert_eq!(records[0].1, obj(vec![("a", text("b"))]));
    assert_eq!(records[1].0, "rec2");
    assert_eq!(records[1].1, JsonValue::Null);

    let no_records = obj(vec![("other", num(1))]);
    assert!(parse_insert_response(&no_records).is_err());
}

#[test]
fn airtable_addresses_compose() {
    let root = AirtableBasesRootAddr;
    assert_eq!(root.own_name(), "@bases");

    let base = AirtableBase::by_id("app46Mmalo62fN5Vq");
    assert_eq!(base.own_name(), "app46Mmalo62fN5Vq");

    let table = base.clone().sub(AirtableTable::by_id_or_name("Entries"));
    assert_eq!(table.own_name(), "Entries");
    assert_eq!(
        table.as_parts(),
        vec!["app46Mmalo62fN5Vq".to_owned(), "Entries".to_owned()]
    );

    let unbound = AirtableTable::by_id_or_name("Loose");
    assert_eq!(
        unbound.as_parts(),
        vec!["(unknown base)".to_owned(), "Loose".to_owned()]
    );

    let record = AirtableRecord {
        id: "rec9".to_owned(),
        table: table.clone(),
        value: None,
    };
    let addressed = table.sub(record);
    assert_eq!(addressed.own_name(), "rec9");
    assert_eq!(
        addressed.as_parts(),
        vec![
            "app46Mmalo62fN5Vq".to_owned(),
            "Entries".to_owned(),
            "rec9".to_owned(),
        ]
    );

    let query = FilterByFormula("Find(\"RPC\", {title})".to_owned());
    assert_eq!(query.0, "Find(\"RPC\", {title})");
}
