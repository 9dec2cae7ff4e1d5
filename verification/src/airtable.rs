//! The decision and parsing logic of the remote table-service connector:
//! addresses for bases, tables and records, the pagination step that turns
//! one list response into items plus an optional continuation offset, batch
//! chunking for inserts, and the parsing of insert responses. The HTTP
//! requests themselves are I/O and live with the embedding program, which
//! drives these functions in a loop.

use vstd::prelude::*;

use crate::address::Address;
use crate::address::SubAddress;
use crate::json_value::JsonValue;
use crate::json_value::JsonValueV;
use crate::json_value::obj_get;
use crate::json_value::obj_has_key;
use crate::paths::JsonPathPart;
use crate::traverse::get_sub_spec;
use crate::traverse::get_subvalue;

verus! {

broadcast use crate::json_value::lemma_view_shape;

/// Errors of the table-service connector: a connector-level diagnosis, or
/// an HTTP or decoding failure folded in as a message by the embedding
/// program.
#[derive(Debug, PartialEq, Eq)]
pub enum AirtableStoreError {
    Custom(String),
    HttpError(String),
    JsonError(String),
}

/// The address of the collection of bases.
#[derive(Debug, Clone, PartialEq, Eq)]
pub struct AirtableBasesRootAddr;

impl Address for AirtableBasesRootAddr {
    open spec fn own_name_spec(&self) -> Seq<char> {
        "@bases"@
    }

    open spec fn as_parts_spec(&self) -> Seq<Seq<char>> {
        seq!["@bases"@]
    }

    fn own_name(&self) -> (r: String) {
        "@bases".to_owned()
    }

    fn as_parts(&self) -> (r: Vec<String>) {
        let mut out: Vec<String> = Vec::new();
        out.push("@bases".to_owned());
        proof {
            assert(Seq::new(out@.len(), |i: int| out@[i]@) =~= seq!["@bases"@]);
        }
        out
    }
}

/// The address of one base: its identifier, with the listing metadata kept
/// alongside when the address came from a listing.
#[derive(Debug, PartialEq, Eq)]
pub struct AirtableBase {
    pub id: String,
    pub meta: Option<JsonValue>,
}

impl Clone for AirtableBase {
    fn clone(&self) -> (res: Self)
        ensures
            res.id@ == self.id@,
            res.meta is Some <==> self.meta is Some,
            res.meta is Some ==> res.meta->0@ == self.meta->0@,
    {
        AirtableBase {
            id: self.id.clone(),
            meta: match &self.meta {
                Some(m) => Some(m.clone()),
                None => None,
            },
        }
    }
}

impl AirtableBase {
    /// The address of the base with the given identifier.
    pub fn by_id(id: &str) -> (r: Self)
        ensures
            r.id@ == id@,
            r.meta is None,
    {
        AirtableBase { id: id.to_owned(), meta: None }
    }
}

impl Address for AirtableBase {
    open spec fn own_name_spec(&self) -> Seq<char> {
        self.id@
    }

    open spec fn as_parts_spec(&self) -> Seq<Seq<char>> {
        seq![self.id@]
    }

    fn own_name(&self) -> (r: String) {
        self.id.clone()
    }

    fn as_parts(&self) -> (r: Vec<String>) {
        let mut out: Vec<String> = Vec::new();
        out.push(self.id.clone());
        proof {
            assert(Seq::new(out@.len(), |i: int| out@[i]@) =~= seq![self.id@]);
        }
        out
    }
}

impl SubAddress<AirtableBase> for AirtableBasesRootAddr {
    type Output = AirtableBase;

    open spec fn sub_ok(&self, sub: &AirtableBase) -> bool {
        true
    }

    open spec fn sub_rel(&self, sub: &AirtableBase, out: &AirtableBase) -> bool {
        out == sub
    }

    fn sub(self, sub: AirtableBase) -> (r: AirtableBase) {
        sub
    }
}

/// The address of one table inside a base: an identifier or name, plus the
/// base once it is known.
#[derive(Debug, PartialEq, Eq)]
pub struct AirtableTable {
    pub id: String,
    pub base: Option<AirtableBase>,
    pub meta: Option<JsonValue>,
}

impl Clone for AirtableTable {
    fn clone(&self) -> (res: Self)
        ensures
            res.id@ == self.id@,
            res.base is Some <==> self.base is Some,
            res.base is Some ==> res.base->0.id@ == self.base->0.id@,
    {
        AirtableTable {
            id: self.id.clone(),
            base: match &self.base {
                Some(b) => Some(b.clone()),
                None => None,
            },
            meta: match &self.meta {
                Some(m) => Some(m.clone()),
                None => None,
            },
        }
    }
}

impl AirtableTable {
    /// The address of the table with the given identifier or name, not yet
    /// tied to a base.
    pub fn by_id_or_name(id_or_name: &str) -> (r: Self)
        ensures
            r.id@ == id_or_name@,
            r.base is None,
            r.meta is None,
    {
        AirtableTable { id: id_or_name.to_owned(), base: None, meta: None }
    }
}

impl Address for AirtableTable {
    open spec fn own_name_spec(&self) -> Seq<char> {
        self.id@
    }

    open spec fn as_parts_spec(&self) -> Seq<Seq<char>> {
        seq![
            match self.base {
                Some(b) => b.id@,
                None => "(unknown base)"@,
            },
            self.id@,
        ]
    }

    fn own_name(&self) -> (r: String) {
        self.id.clone()
    }

    fn as_parts(&self) -> (r: Vec<String>) {
        let mut out: Vec<String> = Vec::new();
        match &self.base {
            Some(b) => {
                out.push(b.id.clone());
            },
            None => {
                out.push("(unknown base)".to_owned());
            },
        }
        out.push(self.id.clone());
        proof {
            assert(Seq::new(out@.len(), |i: int| out@[i]@) =~= self.as_parts_spec());
        }
        out
    }
}

impl SubAddress<AirtableTable> for AirtableBase {
    type Output = AirtableTable;

    open spec fn sub_ok(&self, sub: &AirtableTable) -> bool {
        sub.base is Some ==> sub.base->0.id@ == self.id@
    }

    open spec fn sub_rel(&self, sub: &AirtableTable, out: &AirtableTable) -> bool {
        &&& out.id@ == sub.id@
        &&& out.base is Some
        &&& match sub.base {
            Some(b) => out.base->0.id@ == b.id@,
            None => out.base->0.id@ == self.id@,
        }
    }

    /// Ties a table address to this base; a table that already carries a
    /// base must carry this one.
    fn sub(self, sub: AirtableTable) -> (r: AirtableTable) {
        match sub.base {
            Some(_) => sub,
            None => AirtableTable { id: sub.id, base: Some(self), meta: sub.meta },
        }
    }
}

/// The address of one record inside a table.
#[derive(Debug, PartialEq, Eq)]
pub struct AirtableRecord {
    pub id: String,
    pub table: AirtableTable,
    pub value: Option<JsonValue>,
}

impl Clone for AirtableRecord {
    fn clone(&self) -> (res: Self)
        ensures
            res.id@ == self.id@,
            res.table.id@ == self.table.id@,
            res.value is Some <==> self.value is Some,
            res.value is Some ==> res.value->0@ == self.value->0@,
    {
        AirtableRecord {
            id: self.id.clone(),
            table: self.table.clone(),
            value: match &self.value {
                Some(v) => Some(v.clone()),
                None => None,
            },
        }
    }
}

impl Address for AirtableRecord {
    open spec fn own_name_spec(&self) -> Seq<char> {
        self.id@
    }

    open spec fn as_parts_spec(&self) -> Seq<Seq<char>> {
        self.table.as_parts_spec().push(self.id@)
    }

    fn own_name(&self) -> (r: String) {
        self.id.clone()
    }

    fn as_parts(&self) -> (r: Vec<String>) {
        let mut out: Vec<String> = self.table.as_parts();
        out.push(self.id.clone());
        proof {
            assert(Seq::new(out@.len(), |i: int| out@[i]@) =~= self.as_parts_spec());
        }
        out
    }
}

impl SubAddress<AirtableRecord> for AirtableTable {
    type Output = AirtableRecord;

    open spec fn sub_ok(&self, sub: &AirtableRecord) -> bool {
        sub.table.id@ == self.id@
    }

    open spec fn sub_rel(&self, sub: &AirtableRecord, out: &AirtableRecord) -> bool {
        out == sub
    }

    /// A record address composes only with its own table.
    fn sub(self, sub: AirtableRecord) -> (r: AirtableRecord) {
        sub
    }
}

/// A backend-side record query, as the service's formula language.
#[derive(Debug, Clone, PartialEq, Eq)]
pub struct FilterByFormula(pub String);

impl View for FilterByFormula {
    type V = Seq<char>;

    open spec fn view(&self) -> Seq<char> {
        self.0@
    }
}

/// Whether a listed item carries a string identifier under `"id"`.
pub open spec fn has_str_id(v: JsonValueV) -> bool {
    v is Object && obj_has_key(v->Object_0, "id"@) && obj_get(v->Object_0, "id"@) is String
}

pub open spec fn str_id_of(v: JsonValueV) -> Seq<char> {
    obj_get(v->Object_0, "id"@)->String_0
}

/// What one pagination step extracts from a list response: the items under
/// `key`, each paired with its identifier, and the continuation offset if
/// the response carries one.
pub open spec fn paginate_step_spec(resp: JsonValueV, key: Seq<char>) -> Result<
    (Seq<(Seq<char>, JsonValueV)>, Option<Seq<char>>),
    (),
> {
    if !(resp is Object && obj_has_key(resp->Object_0, key)) {
        Err(())
    } else {
        match obj_get(resp->Object_0, key) {
            JsonValueV::Array(items) => {
                if forall|i: int| 0 <= i < items.len() ==> has_str_id(#[trigger] items[i]) {
                    Ok(
                        (
                            Seq::new(items.len(), |i: int| (str_id_of(items[i]), items[i])),
                            if obj_has_key(resp->Object_0, "offset"@) && obj_get(
                                resp->Object_0,
                                "offset"@,
                            ) is String {
                                Some(obj_get(resp->Object_0, "offset"@)->String_0)
                            } else {
                                None
                            },
                        ),
                    )
                } else {
                    Err(())
                }
            },
            _ => Err(()),
        }
    }
}

/// Reads the field `key` of an object response, absent when the response is
/// null or lacks the key, an error when the response is not an object.
fn get_field<'a>(resp: &'a JsonValue, key: &str) -> (r: Option<&'a JsonValue>)
    ensures
        match r {
            Some(x) => resp@ is Object && obj_has_key(resp@->Object_0, key@) && obj_get(
                resp@->Object_0,
                key@,
            ) == x@,
            None => !(resp@ is Object && obj_has_key(resp@->Object_0, key@)),
        },
{
    let part = JsonPathPart::Key(key.to_owned());
    match get_subvalue(resp, &part) {
        Ok(Some(x)) => {
            proof {
                assert(get_sub_spec(resp@, part@) == Ok::<Option<JsonValueV>, (
                    crate::paths::PathPartV,
                    crate::json_value::JsonKind,
                )>(Some(x@)));
            }
            Some(x)
        },
        _ => None,
    }
}

/// One pagination step of the list protocol: pulls the items under
/// `object_key` out of one response, pairs each with its `"id"`, and hands
/// back the offset to re-issue the request with, if any.
#[verifier::loop_isolation(false)]
pub fn paginate_step(resp: &JsonValue, object_key: &str) -> (r: Result<
    (Vec<(String, JsonValue)>, Option<String>),
    AirtableStoreError,
>)
    ensures
        match r {
            Ok(pair) => paginate_step_spec(resp@, object_key@) matches Ok(sp) && Seq::new(
                pair.0@.len(),
                |i: int| (pair.0@[i].0@, pair.0@[i].1@),
            ) == sp.0 && match (pair.1, sp.1) {
                (Some(o), Some(so)) => o@ == so,
                (None, None) => true,
                _ => false,
            },
            Err(_) => paginate_step_spec(resp@, object_key@) is Err,
        },
{
    let items_val: &JsonValue = match get_field(resp, object_key) {
        Some(v) => v,
        None => {
            return Err(AirtableStoreError::Custom("no item list in response".to_owned()));
        },
    };
    let items: &Vec<JsonValue> = match items_val {
        JsonValue::Array(items) => items,
        _ => {
            return Err(AirtableStoreError::Custom("bad item list type".to_owned()));
        },
    };
    let ghost items_v = items_val@->Array_0;
    let mut out: Vec<(String, JsonValue)> = Vec::new();
    let mut i: usize = 0;
    while i < items.len()
        invariant
            i <= items@.len(),
            out@.len() == i as int,
            forall|m: int| 0 <= m < i as int ==> has_str_id(#[trigger] items_v[m]),
            forall|m: int|
                0 <= m < i as int ==> (#[trigger] out@[m].0@, out@[m].1@) == (
                    str_id_of(items_v[m]),
                    items_v[m],
                ),
        decreases items@.len() - i,
    {
        proof {
            assert(items_v[i as int] == items@[i as int]@);
        }
        let id: String = match get_field(&items[i], "id") {
            Some(JsonValue::String(s)) => s.clone(),
            _ => {
                return Err(AirtableStoreError::Custom("item without an id".to_owned()));
            },
        };
        out.push((id, items[i].clone()));
        i = i + 1;
    }
    let offset: Option<String> = match get_field(resp, "offset") {
        Some(JsonValue::String(s)) => Some(s.clone()),
        _ => None,
    };
    proof {
        assert(paginate_step_spec(resp@, object_key@) is Ok);
        let sp = paginate_step_spec(resp@, object_key@)->Ok_0;
        assert(Seq::new(out@.len(), |m: int| (out@[m].0@, out@[m].1@)) =~= sp.0);
    }
    Ok((out, offset))
}

/// The batch size limit of the insert endpoint.
pub const INSERT_BATCH_LIMIT: usize = 10;

/// Splits the values to insert into batches the endpoint accepts: all full
/// batches of ten, except possibly the last.
#[verifier::loop_isolation(false)]
pub fn chunk_batches(items: Vec<JsonValue>) -> (r: Vec<Vec<JsonValue>>)
    ensures
        ({
            let n = items@.len() as int;
            &&& (n == 0 ==> r@.len() == 0)
            &&& (n > 0 ==> (r@.len() - 1) * (INSERT_BATCH_LIMIT as int) < n <= r@.len() * (
            INSERT_BATCH_LIMIT as int))
            &&& forall|i: int, j: int|
                0 <= i < r@.len() && 0 <= j < (#[trigger] r@[i])@.len() ==> i * (
                INSERT_BATCH_LIMIT as int) + j < n && (#[trigger] r@[i]@[j])@ == items@[i * (
                INSERT_BATCH_LIMIT as int) + j]@
            &&& forall|i: int|
                0 <= i < r@.len() ==> (#[trigger] r@[i])@.len() == if (i + 1) * (
                INSERT_BATCH_LIMIT as int) <= n {
                    INSERT_BATCH_LIMIT as int
                } else {
                    n - i * (INSERT_BATCH_LIMIT as int)
                }
        }),
{
    let n: usize = items.len();
    let mut r: Vec<Vec<JsonValue>> = Vec::new();
    let mut taken: usize = 0;
    while taken < n
        invariant
            taken <= n,
            n as int == items@.len(),
            taken as int == r@.len() * (INSERT_BATCH_LIMIT as int) || (taken == n && r@.len() > 0
                && (r@.len() - 1) * (INSERT_BATCH_LIMIT as int) < taken as int <= r@.len() * (
            INSERT_BATCH_LIMIT as int)),
            forall|i: int, j: int|
                0 <= i < r@.len() && 0 <= j < (#[trigger] r@[i])@.len() ==> i * (
                INSERT_BATCH_LIMIT as int) + j < taken as int && (#[trigger] r@[i]@[j])@
                    == items@[i * (INSERT_BATCH_LIMIT as int) + j]@,
            forall|i: int|
                0 <= i < r@.len() ==> (#[trigger] r@[i])@.len() == if (i + 1) * (
                INSERT_BATCH_LIMIT as int) <= taken as int {
                    INSERT_BATCH_LIMIT as int
                } else {
                    taken as int - i * (INSERT_BATCH_LIMIT as int)
                },
        decreases n - taken,
    {
        let ghost r_before = r@;
        let ghost batch_index = r@.len() as int;
        let start: usize = taken;
        let mut batch: Vec<JsonValue> = Vec::new();
        while taken < n && batch.len() < INSERT_BATCH_LIMIT
            invariant
                start <= taken <= n,
                n as int == items@.len(),
                batch@.len() == taken - start,
                batch@.len() <= INSERT_BATCH_LIMIT as int,
                forall|j: int|
                    0 <= j < batch@.len() ==> (#[trigger] batch@[j])@ == items@[start + j]@,
            decreases n - taken,
        {
            batch.push(items[taken].clone());
            taken = taken + 1;
        }
        r.push(batch);
        proof {
            assert(forall|i: int| 0 <= i < batch_index ==> r@[i] == r_before[i]);
            assert(r@[batch_index]@.len() == taken - start);
            assert(start as int == batch_index * (INSERT_BATCH_LIMIT as int));
        }
    }
    proof {
        if n > 0 {
            assert(r@.len() > 0);
        }
    }
    r
}

/// The request body of a batch insert: each value wrapped as the `fields`
/// of one record, the records collected under `records`.
pub fn build_insert_records(batch: Vec<JsonValue>) -> (r: JsonValue)
    ensures
        r@ == JsonValueV::Object(
            seq![
                (
                    "records"@,
                    JsonValueV::Array(
                        Seq::new(
                            batch@.len(),
                            |i: int| JsonValueV::Object(seq![("fields"@, batch@[i]@)]),
                        ),
                    ),
                ),
            ],
        ),
{
    let mut records: Vec<JsonValue> = Vec::new();
    let n: usize = batch.len();
    let mut rest: Vec<JsonValue> = batch;
    let mut i: usize = 0;
    while i < n
        invariant
            i <= n,
            n as int == rest@.len() + i as int,
            records@.len() == i as int,
            forall|j: int|
                0 <= j < i as int ==> (#[trigger] records@[j])@ == JsonValueV::Object(
                    seq![("fields"@, batch@[j]@)],
                ),
            forall|j: int| 0 <= j < rest@.len() ==> (#[trigger] rest@[j])@ == batch@[i + j]@,
        decreases n - i,
    {
        let mut item: Vec<JsonValue> = rest;
        let first: JsonValue = item.remove(0);
        rest = item;
        let mut fields: Vec<(String, JsonValue)> = Vec::new();
        fields.push(("fields".to_owned(), first));
        let record = JsonValue::Object(fields);
        proof {
            crate::json_value::lemma_view_shape(record);
            assert(record@->Object_0 =~= seq![("fields"@, batch@[i as int]@)]);
        }
        records.push(record);
        i = i + 1;
    }
    let arr = JsonValue::Array(records);
    proof {
        crate::json_value::lemma_view_shape(arr);
        assert(arr@->Array_0 =~= Seq::new(
            batch@.len(),
            |i: int| JsonValueV::Object(seq![("fields"@, batch@[i]@)]),
        ));
    }
    let mut top: Vec<(String, JsonValue)> = Vec::new();
    top.push(("records".to_owned(), arr));
    let r = JsonValue::Object(top);
    proof {
        crate::json_value::lemma_view_shape(r);
        assert(r@->Object_0 =~= seq![
            (
                "records"@,
                JsonValueV::Array(
                    Seq::new(
                        batch@.len(),
                        |i: int| JsonValueV::Object(seq![("fields"@, batch@[i]@)]),
                    ),
                ),
            ),
        ]);
    }
    r
}

/// What parsing an insert response extracts: the `records` array, each
/// record's `"id"` paired with its `"fields"` value (null when absent).
pub open spec fn insert_response_spec(resp: JsonValueV) -> Result<
    Seq<(Seq<char>, JsonValueV)>,
    (),
> {
    if !(resp is Object && obj_has_key(resp->Object_0, "records"@)) {
        Err(())
    } else {
        match obj_get(resp->Object_0, "records"@) {
            JsonValueV::Array(records) => {
                if forall|i: int| 0 <= i < records.len() ==> has_str_id(#[trigger] records[i]) {
                    Ok(
                        Seq::new(
                            records.len(),
                            |i: int|
                                (
                                    str_id_of(records[i]),
                                    if records[i] is Object && obj_has_key(
                                        records[i]->Object_0,
                                        "fields"@,
                                    ) {
                                        obj_get(records[i]->Object_0, "fields"@)
                                    } else {
                                        JsonValueV::Null
                                    },
                                ),
                        ),
                    )
                } else {
                    Err(())
                }
            },
            _ => Err(()),
        }
    }
}

/// Parses the response of a batch insert into the per-record identifiers
/// and stored field values, in the order the service returned them.
#[verifier::loop_isolation(false)]
pub fn parse_insert_response(resp: &JsonValue) -> (r: Result<
    Vec<(String, JsonValue)>,
    AirtableStoreError,
>)
    ensures
        match r {
            Ok(pairs) => insert_response_spec(resp@) matches Ok(sp) && Seq::new(
                pairs@.len(),
                |i: int| (pairs@[i].0@, pairs@[i].1@),
            ) == sp,
            Err(_) => insert_response_spec(resp@) is Err,
        },
{
    let records_val: &JsonValue = match get_field(resp, "records") {
        Some(v) => v,
        None => {
            return Err(AirtableStoreError::Custom("no records in response".to_owned()));
        },
    };
    let records: &Vec<JsonValue> = match records_val {
        JsonValue::Array(records) => records,
        _ => {
            return Err(AirtableStoreError::Custom("bad records type".to_owned()));
        },
    };
    let ghost records_v = records_val@->Array_0;
    let mut out: Vec<(String, JsonValue)> = Vec::new();
    let mut i: usize = 0;
    while i < records.len()
        invariant
            i <= records@.len(),
            out@.len() == i as int,
            forall|m: int| 0 <= m < i as int ==> has_str_id(#[trigger] records_v[m]),
            forall|m: int|
                0 <= m < i as int ==> (#[trigger] out@[m].0@, out@[m].1@) == (
                    str_id_of(records_v[m]),
                    if records_v[m] is Object && obj_has_key(records_v[m]->Object_0, "fields"@) {
                        obj_get(records_v[m]->Object_0, "fields"@)
                    } else {
                        JsonValueV::Null
                    },
                ),
        decreases records@.len() - i,
    {
        proof {
            assert(records_v[i as int] == records@[i as int]@);
        }
        let id: String = match get_field(&records[i], "id") {
            Some(JsonValue::String(s)) => s.clone(),
            _ => {
                return Err(AirtableStoreError::Custom("record without an id".to_owned()));
            },
        };
        let fields: JsonValue = match get_field(&records[i], "fields") {
            Some(v) => v.clone(),
            None => JsonValue::Null,
        };
        out.push((id, fields));
        i = i + 1;
    }
    proof {
        assert(insert_response_spec(resp@) is Ok);
        let sp = insert_response_spec(resp@)->Ok_0;
        assert(Seq::new(out@.len(), |m: int| (out@[m].0@, out@[m].1@)) =~= sp);
    }
    Ok(out)
}

} // verus!
