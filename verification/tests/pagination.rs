use status_archive::fetch::{fetch_start, fetch_step, Direction, FetchState};
use status_archive::link::parse_link;
use status_archive::merge::merge;
use status_archive::status::{statuses_from_body, Status};

const HOST: &str = "https://example.social";

#[test]
fn parse_link_picks_the_requested_relation() {
    let header = "<https://example.social/api/v1/accounts/1/statuses?max_id=5>; rel=\"next\", \
                  <https://example.social/api/v1/accounts/1/statuses?since_id=9>; rel=\"prev\"";
    assert_eq!(
        parse_link(header, "next"),
        Some("https://example.social/api/v1/accounts/1/statuses?max_id=5".to_string())
    );
    assert_eq!(
        parse_link(header, "prev"),
        Some("https://example.social/api/v1/accounts/1/statuses?since_id=9".to_string())
    );
}

#[test]
fn parse_link_without_rel_attribute_gives_no_cursor() {
    let header = "<https://example.social/page/2>";
    assert_eq!(parse_link(header, "next"), None);
    assert_eq!(parse_link(header, "prev"), None);
}

#[test]
fn parse_link_without_angle_brackets_gives_no_cursor() {
    let header = "https://example.social/page/2; rel=\"next\"";
    assert_eq!(parse_link(header, "next"), None);
}

#[test]
fn parse_link_returns_the_first_match() {
    let header = "<https://example.social/a>; rel=\"next\", <https://example.social/b>; rel=\"next\"";
    assert_eq!(parse_link(header, "next"), Some("https://example.social/a".to_string()));
}

#[test]
fn absent_cursor_walks_forward_following_next() {
    let state = fetch_start("1", None);
    assert_eq!(state.dir, Direction::Next);
    assert_eq!(state.since_id, None);
    assert_eq!(state.url, "/api/v1/accounts/1/statuses");
    assert!(state.collected.is_empty());
}

#[test]
fn present_cursor_resumes_with_since_id_following_prev() {
    let state = fetch_start("1", Some("100".to_string()));
    assert_eq!(state.dir, Direction::Prev);
    assert_eq!(state.since_id, Some("100".to_string()));
    assert_eq!(state.url, "/api/v1/accounts/1/statuses");
}

fn page(body: &str) -> Vec<Status> {
    statuses_from_body(body).unwrap()
}

#[test]
fn step_follows_only_the_active_relation_when_both_are_present() {
    let header = "<https://example.social/n>; rel=\"next\", <https://example.social/p>; rel=\"prev\"";

    let mut resumed = fetch_start("1", Some("100".to_string()));
    let more = fetch_step(&mut resumed, Vec::new(), Some(header), HOST);
    assert!(more);
    assert_eq!(resumed.url, "/p");

    let mut full = fetch_start("1", None);
    let more = fetch_step(&mut full, Vec::new(), Some(header), HOST);
    assert!(more);
    assert_eq!(full.url, "/n");
}

#[test]
fn step_clears_the_query_once_a_link_url_takes_over() {
    let mut state = fetch_start("1", Some("100".to_string()));
    assert_eq!(state.since_id, Some("100".to_string()));
    let header = "<https://example.social/api/v1/accounts/1/statuses?since_id=101>; rel=\"prev\"";
    let more = fetch_step(&mut state, Vec::new(), Some(header), HOST);
    assert!(more);
    assert_eq!(state.since_id, None);
    assert_eq!(state.url, "/api/v1/accounts/1/statuses?since_id=101");
}

#[test]
fn step_without_matching_link_ends_pagination_but_keeps_the_page() {
    let mut state = fetch_start("1", None);
    let records = page(r#"[{"id":"1","created_at":"2024-01-01T00:00:00Z"}]"#);
    let more = fetch_step(&mut state, records, None, HOST);
    assert!(!more);
    assert_eq!(state.collected.len(), 1);
    assert_eq!(state.collected[0].id, "1");
}

#[test]
fn malformed_link_header_stops_after_one_page_without_error() {
    let mut state = fetch_start("1", None);
    let records = page(r#"[{"id":"1","created_at":"2024-01-01T00:00:00Z"}]"#);
    // no rel= attribute at all
    let more = fetch_step(&mut state, records, Some("<https://example.social/x>"), HOST);
    assert!(!more);
    assert_eq!(state.collected.len(), 1);
}

#[test]
fn url_outside_the_configured_host_is_kept_whole() {
    let mut state = fetch_start("1", None);
    let header = "<https://other.example/x>; rel=\"next\"";
    let more = fetch_step(&mut state, Vec::new(), Some(header), HOST);
    assert!(more);
    assert_eq!(state.url, "https://other.example/x");
}

#[test]
fn two_page_resumed_fetch_merges_into_complete_ascending_archive() {
    // archive holds one record; its id is the cursor
    let archive = page(r#"[{"id":"100","created_at":"2024-01-01T00:00:00Z"}]"#);
    let (existing, cursor) = status_archive::archive::resume_from(archive);
    assert_eq!(cursor, Some("100".to_string()));

    let mut state: FetchState = fetch_start("1", cursor);
    assert_eq!(state.dir, Direction::Prev);

    // page 1, with a prev link to page 2
    let page1 = page(r#"[{"id":"101","created_at":"2024-01-02T00:00:00Z"}]"#);
    let header = "<https://example.social/api/v1/accounts/1/statuses?since_id=101>; rel=\"prev\"";
    let more = fetch_step(&mut state, page1, Some(header), HOST);
    assert!(more);
    assert_eq!(state.url, "/api/v1/accounts/1/statuses?since_id=101");

    // page 2, with no further link
    let page2 = page(r#"[{"id":"102","created_at":"2024-01-03T00:00:00Z"}]"#);
    let more = fetch_step(&mut state, page2, None, HOST);
    assert!(!more);

    let merged = merge(existing, state.collected);
    let ids: Vec<&str> = merged.iter().map(|s| s.id.as_str()).collect();
    assert_eq!(ids, vec!["100", "101", "102"]);
    let times: Vec<&str> = merged.iter().map(|s| s.created_at.as_str()).collect();
    let mut sorted = times.clone();
    sorted.sort();
    assert_eq!(times, sorted);
}
