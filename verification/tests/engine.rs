use status_archive::account::{choose_credential, extract_access_token, get_account_id,
    CredentialPlan};
use status_archive::archive::load_archive;
use status_archive::error::ArchiveError;
use status_archive::merge::merge;
use status_archive::status::{into_raw, status_from_json, statuses_from_body, Status};

fn record(id: &str, created_at: &str) -> Status {
    Status {
        id: id.to_string(),
        created_at: created_at.to_string(),
        raw: serde_json::Value::Null,
    }
}

fn ids(records: &[Status]) -> Vec<String> {
    records.iter().map(|s| s.id.clone()).collect()
}

#[test]
fn merge_sorts_ascending_by_created_at() {
    let existing = vec![record("3", "2024-03-01T00:00:00Z"), record("1", "2024-01-01T00:00:00Z")];
    let fetched = vec![record("2", "2024-02-01T00:00:00Z")];
    let merged = merge(existing, fetched);
    assert_eq!(ids(&merged), vec!["1".to_string(), "2".to_string(), "3".to_string()]);
}

#[test]
fn merge_no_loss_no_duplication_on_disjoint_sets() {
    let existing = vec![record("10", "2024-01-01T00:00:00Z"), record("11", "2024-01-02T00:00:00Z")];
    let fetched = vec![record("12", "2024-02-01T00:00:00Z"), record("13", "2024-02-02T00:00:00Z")];
    let merged = merge(existing, fetched);
    assert_eq!(merged.len(), 4);
    let mut seen = ids(&merged);
    seen.sort();
    seen.dedup();
    assert_eq!(seen.len(), 4);
}

#[test]
fn merge_drops_repeated_id_keeping_first_occurrence() {
    let existing = vec![record("100", "2024-01-01T00:00:00Z")];
    let fetched = vec![record("100", "2024-05-01T00:00:00Z"), record("101", "2024-01-02T00:00:00Z")];
    let merged = merge(existing, fetched);
    assert_eq!(merged.len(), 2);
    assert_eq!(merged[0].id, "100");
    // the first occurrence came from the archive, so its timestamp stays
    assert_eq!(merged[0].created_at, "2024-01-01T00:00:00Z");
    assert_eq!(merged[1].id, "101");
}

#[test]
fn merge_is_order_independent_on_distinct_inputs() {
    let a = || vec![record("1", "2024-01-01T00:00:00Z"), record("3", "2024-03-01T00:00:00Z")];
    let b = || vec![record("2", "2024-02-01T00:00:00Z")];
    let one = merge(a(), b());
    let two = merge(b(), a());
    assert_eq!(ids(&one), ids(&two));
}

#[test]
fn merging_same_fetch_into_empty_archive_twice_gives_identical_archives() {
    let fetched = || vec![record("2", "2024-02-01T00:00:00Z"), record("1", "2024-01-01T00:00:00Z")];
    let first = merge(Vec::new(), fetched());
    let second = merge(Vec::new(), fetched());
    assert_eq!(ids(&first), ids(&second));
    // and merging the result with nothing new changes nothing
    let again = merge(first, Vec::new());
    assert_eq!(ids(&again), ids(&second));
}

#[test]
fn equal_timestamps_keep_arrival_order() {
    let t = "2024-01-01T00:00:00Z";
    let merged = merge(vec![record("b", t), record("a", t)], Vec::new());
    assert_eq!(ids(&merged), vec!["b".to_string(), "a".to_string()]);
    let merged = merge(Vec::new(), vec![record("a", t), record("b", t)]);
    assert_eq!(ids(&merged), vec!["a".to_string(), "b".to_string()]);
}

#[test]
fn load_archive_gives_cursor_of_most_recent_record() {
    let content = r#"[
        {"id":"100","created_at":"2024-01-01T00:00:00Z"},
        {"id":"102","created_at":"2024-01-03T00:00:00Z"},
        {"id":"101","created_at":"2024-01-02T00:00:00Z"}
    ]"#;
    let (records, cursor) = load_archive(content).unwrap();
    assert_eq!(cursor, Some("102".to_string()));
    // descending by created_at
    assert_eq!(ids(&records), vec!["102".to_string(), "101".to_string(), "100".to_string()]);
}

#[test]
fn empty_archive_file_means_full_fetch_not_an_error() {
    let (records, cursor) = load_archive("[]").unwrap();
    assert!(records.is_empty());
    assert_eq!(cursor, None);
}

#[test]
fn archive_that_is_not_an_array_is_a_data_integrity_error() {
    assert_eq!(load_archive("{\"id\":\"1\"}").unwrap_err(), ArchiveError::NotAnArray);
    assert_eq!(load_archive("not json at all").unwrap_err(), ArchiveError::NotAnArray);
}

#[test]
fn record_missing_a_field_is_named() {
    assert_eq!(
        load_archive(r#"[{"created_at":"2024-01-01T00:00:00Z"}]"#).unwrap_err(),
        ArchiveError::MissingId
    );
    assert_eq!(load_archive(r#"[{"id":"1"}]"#).unwrap_err(), ArchiveError::MissingCreatedAt);
    // a field of the wrong type counts as missing
    assert_eq!(load_archive(r#"[{"id":7,"created_at":"x"}]"#).unwrap_err(), ArchiveError::MissingId);
}

#[test]
fn status_from_json_reads_both_fields_and_keeps_the_document() {
    let v: serde_json::Value =
        serde_json::from_str(r#"{"id":"42","created_at":"2024-06-01T00:00:00Z","content":"hi"}"#)
            .unwrap();
    let s = status_from_json(v.clone()).unwrap();
    assert_eq!(s.id, "42");
    assert_eq!(s.created_at, "2024-06-01T00:00:00Z");
    assert_eq!(into_raw(s), v);
}

#[test]
fn statuses_from_body_keeps_array_order() {
    let body = r#"[{"id":"b","created_at":"2"},{"id":"a","created_at":"1"}]"#;
    let page = statuses_from_body(body).unwrap();
    assert_eq!(ids(&page), vec!["b".to_string(), "a".to_string()]);
}

#[test]
fn choose_credential_prefers_the_token() {
    let plan = choose_credential(
        Some("tok".to_string()),
        Some("id".to_string()),
        Some("secret".to_string()),
    )
    .unwrap();
    assert!(matches!(plan, CredentialPlan::UseToken(t) if t == "tok"));
}

#[test]
fn choose_credential_takes_the_client_pair_without_a_token() {
    let plan =
        choose_credential(None, Some("id".to_string()), Some("secret".to_string())).unwrap();
    match plan {
        CredentialPlan::Exchange { client_id, client_secret } => {
            assert_eq!(client_id, "id");
            assert_eq!(client_secret, "secret");
        },
        CredentialPlan::UseToken(_) => panic!("expected an exchange"),
    }
}

#[test]
fn choose_credential_rejects_a_half_pair() {
    let r = choose_credential(None, Some("id".to_string()), None);
    assert_eq!(r.unwrap_err(), ArchiveError::NoCredential);
    let r = choose_credential(None, None, None);
    assert_eq!(r.unwrap_err(), ArchiveError::NoCredential);
}

#[test]
fn extract_access_token_reads_the_field() {
    let v: serde_json::Value = serde_json::from_str(r#"{"access_token":"abc"}"#).unwrap();
    assert_eq!(extract_access_token(v).unwrap(), "abc");
    let v: serde_json::Value = serde_json::from_str(r#"{"token_type":"Bearer"}"#).unwrap();
    assert_eq!(extract_access_token(v).unwrap_err(), ArchiveError::MissingAccessToken);
}

#[test]
fn get_account_id_reads_the_id_or_names_what_failed() {
    let v: serde_json::Value = serde_json::from_str(r#"{"id":"777"}"#).unwrap();
    assert_eq!(get_account_id(Ok(v)).unwrap(), "777");

    let v: serde_json::Value = serde_json::from_str(r#"{"name":"x"}"#).unwrap();
    assert_eq!(get_account_id(Ok(v)).unwrap_err(), ArchiveError::MissingAccountId);

    let e = get_account_id(Err("HTTP status client error (422 Unprocessable Entity) for url".to_string()))
        .unwrap_err();
    assert_eq!(e, ArchiveError::AccountIdUnavailable);

    let e = get_account_id(Err("connection refused".to_string())).unwrap_err();
    assert_eq!(e, ArchiveError::Transport("connection refused".to_string()));
}
