use plc_mirror::clock::Timestamp;
use plc_mirror::database::{DbError, IndexKind};
use plc_mirror::json::Json;
use plc_mirror::models::{DidRecord, Stats};
use plc_mirror::web::{self, DidsQuery, DidsSource};

fn query(limit: usize, page: usize, search: Option<&str>) -> DidsQuery {
    DidsQuery { limit, offset: 0, page, search: search.map(|s| s.to_string()) }
}

fn record(did: &str, doc: &str) -> DidRecord {
    let at = Timestamp::new(1_700_000_000, 0).unwrap();
    DidRecord::new_at(1, at, did.to_string(), Json::parse(doc).unwrap())
}

#[test]
fn the_default_is_fifty_records() {
    assert_eq!(web::default_limit(), 50);
}

#[test]
fn page_zero_is_page_one() {
    let plan = query(50, 0, None).plan();
    assert_eq!((plan.page, plan.offset, plan.limit), (1, 0, 50));
    let plan = query(50, 1, None).plan();
    assert_eq!((plan.page, plan.offset), (1, 0));
    let plan = query(50, 3, None).plan();
    assert_eq!((plan.page, plan.offset), (3, 100));
}

#[test]
fn a_blank_search_is_none() {
    assert!(matches!(query(50, 1, None).plan().source, DidsSource::All));
    assert!(matches!(query(50, 1, Some("")).plan().source, DidsSource::All));
    assert!(matches!(query(50, 1, Some(" \t\u{3000}")).plan().source, DidsSource::All));
    assert!(matches!(query(50, 1, Some("  alice b ")).plan().source,
        DidsSource::Search(term) if term == "alice b"));
}

#[test]
fn a_page_too_far_cannot_be_counted() {
    assert!(query(50, 3, None).can_be_counted());
    assert!(!query(usize::MAX, 3, None).can_be_counted());
    assert!(query(usize::MAX, 1, None).can_be_counted());
    assert!(!query(usize::MAX, 2, None).can_be_counted());
    assert!(query(0, usize::MAX, None).can_be_counted());
    assert!(!query(2, usize::MAX, None).can_be_counted());
}

#[test]
fn a_page_shows_its_records() {
    let records = vec![
        record("did:plc:a", r##"{"alsoKnownAs":["at://a"],"service":[{"id":"#bsky_pds","serviceEndpoint":"https://p"}]}"##),
        record("did:plc:b", "{}"),
    ];
    let page = query(2, 2, Some("x")).plan().page(Some("x".to_string()), Some(records), 5);
    assert_eq!(page.dids.len(), 2);
    assert_eq!(page.dids[0].did, "did:plc:a");
    assert_eq!(page.dids[0].handle, "at://a");
    assert_eq!(page.dids[0].pds_endpoint, "https://p");
    assert_eq!(page.dids[0].last_seen.secs(), 1_700_000_000);
    assert_eq!(page.dids[1].handle, "N/A");
    assert_eq!(page.dids[1].pds_endpoint, "N/A");
    assert_eq!(page.current_page, 2);
    assert!(page.has_next_page);
    assert_eq!(page.total_found, 5);
    assert_eq!(page.search_query.as_deref(), Some("x"));
    let last = query(2, 2, None).plan().page(None, None, 4);
    assert!(last.dids.is_empty());
    assert!(!last.has_next_page);
}

#[test]
fn the_total_is_none_where_the_totals_cannot_be_had() {
    let mut stats = Stats::default();
    stats.total_dids = 12;
    assert_eq!(web::total_of::<DbError>(&Ok(stats)), 12);
    assert_eq!(web::total_of(&Err(DbError::BadReference(IndexKind::Dids))), 0);
    let mut odd = Stats::default();
    odd.total_dids = -1;
    assert_eq!(web::total_of::<DbError>(&Ok(odd)), usize::MAX);
}

#[test]
fn a_did_is_served_gone_unknown_or_failed() {
    let known = record("did:plc:a", "{}");
    assert_eq!(web::resolve_did::<DbError>(Ok(Some(known.clone()))).unwrap().did, "did:plc:a");
    let mut gone = known;
    gone.tombstone();
    assert_eq!(web::resolve_did::<DbError>(Ok(Some(gone))).err(), Some(410));
    assert_eq!(web::resolve_did::<DbError>(Ok(None)).err(), Some(404));
    assert_eq!(
        web::resolve_did(Err(DbError::BadReference(IndexKind::Dids))).err(),
        Some(500)
    );
    let found: Result<u8, DbError> = Ok(3);
    assert_eq!(web::answer(found), Ok(3));
    let failed: Result<u8, DbError> = Err(DbError::BadReference(IndexKind::Operations));
    assert_eq!(web::answer(failed), Err(500));
}
