//! One status record: the opaque JSON document plus the two fields the
//! engine inspects, `id` (dedup key, resume cursor) and `created_at`
//! (sort key).
use vstd::prelude::*;

use crate::error::ArchiveError;
use crate::json::{json_as_str, json_elems, json_get, json_parse_ok, json_str_field,
    parse_json_array};

verus! {

/// One post, as the engine sees it: the full document is carried through
/// untouched in `raw`; `id` and `created_at` are its two fields read out as
/// plain strings.
#[derive(Debug)]
pub struct Status {
    pub id: String,
    pub created_at: String,
    pub raw: serde_json::Value,
}

/// The JSON document carries both fields the engine needs, as strings.
pub open spec fn has_status_fields(v: serde_json::Value) -> bool {
    json_str_field(v, "id"@) is Some && json_str_field(v, "created_at"@) is Some
}

/// Every element of the sequence carries both fields.
pub open spec fn all_have_fields(vs: Seq<serde_json::Value>) -> bool {
    forall|i: int| 0 <= i < vs.len() ==> #[trigger] has_status_fields(vs[i])
}

/// `s` is the record read from `v`: the document itself, and the two string
/// fields exactly as they stand in it.
pub open spec fn decoded(v: serde_json::Value, s: Status) -> bool {
    &&& s.raw == v
    &&& json_str_field(v, "id"@) == Some(s.id@)
    &&& json_str_field(v, "created_at"@) == Some(s.created_at@)
}

/// Reads the `id` and `created_at` string fields out of one JSON record:
/// success exactly when both are present as strings, and then the record
/// carries them verbatim; otherwise the first missing field is named.
pub fn status_from_json(v: serde_json::Value) -> (r: Result<Status, ArchiveError>)
    ensures
        r is Ok <==> has_status_fields(v),
        r matches Ok(s) ==> decoded(v, s),
        r matches Err(e) ==> if json_str_field(v, "id"@) is None {
            e is MissingId
        } else {
            e is MissingCreatedAt
        },
{
    let id: String = match json_get(&v, "id") {
        Some(field) => match json_as_str(field) {
            Some(text) => text,
            None => {
                return Err(ArchiveError::MissingId);
            },
        },
        None => {
            return Err(ArchiveError::MissingId);
        },
    };
    let created_at: String = match json_get(&v, "created_at") {
        Some(field) => match json_as_str(field) {
            Some(text) => text,
            None => {
                return Err(ArchiveError::MissingCreatedAt);
            },
        },
        None => {
            return Err(ArchiveError::MissingCreatedAt);
        },
    };
    Ok(Status { id, created_at, raw: v })
}

/// Turns the elements of a parsed JSON array into records: success exactly
/// when every element carries both fields, and then one `Status` per
/// element, in array order, each reading its element; the first element with
/// a field missing fails the whole conversion and is named.
pub fn statuses_from_values(values: Vec<serde_json::Value>) -> (r: Result<
    Vec<Status>,
    ArchiveError,
>)
    ensures
        r is Ok <==> all_have_fields(values@),
        r matches Ok(list) ==> list@.len() == values@.len() && (forall|i: int|
            0 <= i < list@.len() ==> #[trigger] decoded(values@[i], list@[i])),
        r matches Err(e) ==> (e is MissingId || e is MissingCreatedAt),
{
    let ghost orig = values@;
    let mut rest = values;
    let mut out: Vec<Status> = Vec::new();
    proof {
        assert(rest@ =~= orig.skip(0));
    }
    while rest.len() > 0
        invariant
            values@ == orig,
            out@.len() + rest@.len() == orig.len(),
            rest@ == orig.skip(out@.len() as int),
            forall|i: int| 0 <= i < out@.len() ==> #[trigger] decoded(orig[i], out@[i]),
        decreases rest.len(),
    {
        let ghost k = out@.len() as int;
        let v = rest.remove(0);
        proof {
            assert(orig.skip(k)[0] == orig[k]);
            assert(orig.skip(k).remove(0) =~= orig.skip(k + 1));
        }
        match status_from_json(v) {
            Ok(s) => out.push(s),
            Err(e) => {
                proof {
                    assert(!has_status_fields(orig[k]));
                }
                return Err(e);
            },
        }
    }
    proof {
        assert forall|i: int| 0 <= i < orig.len() implies #[trigger] has_status_fields(
            orig[i],
        ) by {
            assert(decoded(orig[i], out@[i]));
        }
    }
    Ok(out)
}

/// Parses a response or archive body as a JSON array of records: an error
/// names what was wrong — not a JSON array at all, or a record with a field
/// missing; success is owed exactly when the text parses as an array whose
/// every element carries both fields, and then hands back one `Status` per
/// element, in array order.
pub fn statuses_from_body(body: &str) -> (r: Result<Vec<Status>, ArchiveError>)
    ensures
        r is Ok <==> (json_parse_ok(body@) && all_have_fields(json_elems(body@))),
        r matches Ok(list) ==> list@.len() == json_elems(body@).len() && (forall|i: int|
            0 <= i < list@.len() ==> #[trigger] decoded(json_elems(body@)[i], list@[i])),
        !json_parse_ok(body@) ==> (r matches Err(e) && e is NotAnArray),
        json_parse_ok(body@) ==> (r matches Err(e) ==> (e is MissingId || e is MissingCreatedAt)),
{
    match parse_json_array(body) {
        Ok(values) => statuses_from_values(values),
        Err(_) => Err(ArchiveError::NotAnArray),
    }
}

/// Gives the opaque JSON document back, for the unverified writer at the edge
/// of the program.
pub fn into_raw(s: Status) -> (r: serde_json::Value)
    ensures
        r == s.raw,
{
    s.raw
}

} // verus!
