//! The pagination engine: from the resume cursor it decides the traversal
//! direction and the first request; from each response it keeps the page's
//! records and decides whether, and where, to ask again. The transport that
//! actually issues the requests lives outside and hands back plain values.
use vstd::prelude::*;

use crate::link::{link_target, parse_link, rel_token};
use crate::status::Status;
use crate::text::{strip_prefix_exec, strip_prefix_spec};

verus! {

/// Which pagination relation this fetch follows. A full historical walk goes
/// forward along `next`; a `since_id`-filtered fetch pages toward newer
/// records along `prev` — an asymmetry of the upstream API that this type
/// couples to the query-parameter setup.
#[derive(Clone, Copy, Debug, PartialEq, Eq, Structural)]
pub enum Direction {
    Next,
    Prev,
}

impl Direction {
    /// The relation name followed in this direction.
    pub open spec fn rel_spec(self) -> Seq<char> {
        match self {
            Direction::Next => "next"@,
            Direction::Prev => "prev"@,
        }
    }

    /// The relation name, as request code needs it.
    pub fn rel(self) -> (r: &'static str)
        ensures
            r@ == self.rel_spec(),
    {
        match self {
            Direction::Next => "next",
            Direction::Prev => "prev",
        }
    }
}

/// The path of the status listing of one account.
pub open spec fn statuses_path(account_id: Seq<char>) -> Seq<char> {
    "/api/v1/accounts/"@ + account_id + "/statuses"@
}

/// What the engine asks the transport to do next, and what it has collected.
pub struct FetchState {
    /// The relation followed for the whole fetch.
    pub dir: Direction,
    /// The URL of the next request, relative to the configured host; after
    /// the first response it comes from the link header, queries embedded.
    pub url: String,
    /// The `since_id` query parameter, present only before the first request
    /// of a resumed fetch; link-provided URLs already encode it.
    pub since_id: Option<String>,
    /// The records accumulated so far, in arrival order.
    pub collected: Vec<Status>,
}

/// Starts a fetch. An absent cursor walks the full history forward following
/// `next`, with no query parameter; a present cursor asks only for strictly
/// newer records with `since_id` and follows `prev`.
pub fn fetch_start(account_id: &str, resume_cursor: Option<String>) -> (s: FetchState)
    ensures
        s.url@ == statuses_path(account_id@),
        s.collected@ == Seq::<Status>::empty(),
        resume_cursor matches Some(c) ==> s.dir == Direction::Prev && s.since_id == Some(c),
        resume_cursor is None ==> s.dir == Direction::Next && s.since_id is None,
{
    let mut url = String::new();
    url.append("/api/v1/accounts/");
    url.append(account_id);
    url.append("/statuses");
    proof {
        assert(url@ =~= statuses_path(account_id@));
    }
    match resume_cursor {
        Some(c) => FetchState {
            dir: Direction::Prev,
            url,
            since_id: Some(c),
            collected: Vec::new(),
        },
        None => FetchState { dir: Direction::Next, url, since_id: None, collected: Vec::new() },
    }
}

/// Consumes one response: keeps the page's records in arrival order, then
/// follows the link of this fetch's own relation and no other. A matching
/// link is the next URL, with the configured host prefix stripped and the
/// query cleared (the URL embeds it); a missing header, or none of this
/// fetch's relation, ends pagination — after the page's records are kept,
/// and without an error.
pub fn fetch_step(
    state: &mut FetchState,
    page: Vec<Status>,
    link_header: Option<&str>,
    host: &str,
) -> (more: bool)
    ensures
        final(state).dir == old(state).dir,
        final(state).collected@ == old(state).collected@ + page@,
        more == (link_header matches Some(h) && link_target(
            h@,
            rel_token(old(state).dir.rel_spec()),
        ) is Some),
        more ==> (link_header matches Some(h) && final(state).url@ == strip_prefix_spec(
            link_target(h@, rel_token(old(state).dir.rel_spec()))->Some_0,
            host@,
        ) && final(state).since_id is None),
        !more ==> final(state).url == old(state).url && final(state).since_id == old(
            state,
        ).since_id,
{
    let mut page = page;
    state.collected.append(&mut page);
    let next = match link_header {
        Some(h) => parse_link(h, state.dir.rel()),
        None => None,
    };
    match next {
        Some(u) => {
            state.url = strip_prefix_exec(u.as_str(), host);
            state.since_id = None;
            true
        },
        None => false,
    }
}

} // verus!
