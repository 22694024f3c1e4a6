//! The archive loader: turns a previously saved record set into the working
//! copy sorted newest-first and the resume cursor, the id of the most recent
//! record. An empty archive is a full fetch, not an error; a malformed one
//! fails the run before any fetch, so good data is never overwritten.
use vstd::prelude::*;

use crate::error::ArchiveError;
use crate::json::{json_elems, json_parse_ok};
use crate::merge::{lemma_sort_by_time, sort_by_time, sort_exec, time_le};
use crate::status::{all_have_fields, statuses_from_body, Status};

verus! {

/// Descending by `created_at`: the newest record first.
pub open spec fn sorted_by_time_desc(s: Seq<Status>) -> bool {
    forall|i: int, j: int| 0 <= i < j < s.len() ==> time_le(s[j], s[i])
}

/// Reverses the order of the records.
fn reverse_records(records: Vec<Status>) -> (r: Vec<Status>)
    ensures
        r@ == records@.reverse(),
{
    let ghost orig = records@;
    let mut records = records;
    let mut out: Vec<Status> = Vec::new();
    proof {
        assert(records@ =~= orig.take(orig.len() as int));
        assert(out@ =~= orig.skip(orig.len() as int).reverse());
    }
    while records.len() > 0
        invariant
            records@.len() <= orig.len(),
            records@ == orig.take(records@.len() as int),
            out@ == orig.skip(records@.len() as int).reverse(),
        decreases records@.len(),
    {
        let ghost m = records@.len() as int;
        let x = records.pop().unwrap();
        out.push(x);
        proof {
            assert(x == orig[m - 1]);
            assert(records@ =~= orig.take(m - 1));
            assert(out@ =~= orig.skip(m - 1).reverse());
        }
    }
    proof {
        assert(out@ =~= orig.reverse());
    }
    out
}

/// From the already-parsed archive records: the working copy sorted
/// descending by `created_at`, and the id of its most recent record as the
/// resume cursor — absent exactly when the archive is empty.
pub fn resume_from(records: Vec<Status>) -> (r: (Vec<Status>, Option<String>))
    ensures
        r.0@ == sort_by_time(records@).reverse(),
        sorted_by_time_desc(r.0@),
        r.0@.len() > 0 ==> (r.1 matches Some(c) && c@ == r.0@[0].id@),
        r.0@.len() == 0 ==> r.1 is None,
{
    let asc = sort_exec(records);
    let ghost asc_view = asc@;
    let desc = reverse_records(asc);
    proof {
        assert forall|i: int, j: int| 0 <= i < j < desc@.len() implies time_le(
            desc@[j],
            desc@[i],
        ) by {
            assert(desc@[i] == asc_view[asc_view.len() - 1 - i]);
            assert(desc@[j] == asc_view[asc_view.len() - 1 - j]);
        }
    }
    let cursor: Option<String> = if desc.len() > 0 {
        Some(desc[0].id.clone())
    } else {
        None
    };
    (desc, cursor)
}

/// Loads a saved archive from its text: parses it as a JSON array of
/// records, sorts a working copy descending by `created_at`, and takes the
/// most recent record's id as the resume cursor. Success is owed exactly
/// when the text parses as an array whose every element carries both fields;
/// an empty array gives an empty set and an absent cursor, not an error;
/// malformed content is a data-integrity error.
pub fn load_archive(content: &str) -> (r: Result<(Vec<Status>, Option<String>), ArchiveError>)
    ensures
        r is Ok <==> (json_parse_ok(content@) && all_have_fields(json_elems(content@))),
        r matches Ok((records, cursor)) ==> {
            &&& sorted_by_time_desc(records@)
            &&& records@.len() == json_elems(content@).len()
            &&& (records@.len() > 0 ==> (cursor matches Some(c) && c@ == records@[0].id@))
            &&& (records@.len() == 0 ==> cursor is None)
        },
        !json_parse_ok(content@) ==> (r matches Err(e) && e is NotAnArray),
        json_parse_ok(content@) ==> (r matches Err(e) ==> (e is MissingId || e is MissingCreatedAt)),
{
    let parsed = match statuses_from_body(content) {
        Ok(v) => v,
        Err(e) => {
            return Err(e);
        },
    };
    proof {
        lemma_sort_by_time(parsed@);
    }
    Ok(resume_from(parsed))
}

} // verus!
