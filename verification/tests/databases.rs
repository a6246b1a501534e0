use plc_mirror::clock::Timestamp;
use plc_mirror::database::{Database, DbError, IndexKind, RecordKind};
use plc_mirror::json::Json;
use plc_mirror::listing::{self, Page, PageStep, Search, SearchCount};
use plc_mirror::models::{
    DidRecord, LogEntry, OperationRecord, Peer, PlcOperation, ScraperConfig, ScraperJob, Stats,
    SystemSettings,
};
use plc_mirror::storage_keys;
use plc_mirror::store::{Partition, StatsChange, Step, Stored};
use plc_mirror::web;
use std::collections::BTreeMap;

fn at(secs: i64) -> Timestamp {
    Timestamp::new(secs, 0).unwrap()
}

fn operation(op_type: &str, alias: &str) -> PlcOperation {
    PlcOperation {
        op_type: op_type.to_string(),
        rotation_keys: None,
        verification_methods: None,
        also_known_as: Some(vec![alias.to_string()]),
        services: None,
        prev: None,
        sig: "sig".to_string(),
        signing_key: None,
        recovery_key: None,
        handle: None,
        service: None,
    }
}

fn entry(did: &str, cid: &str, op: PlcOperation) -> LogEntry {
    LogEntry {
        did: did.to_string(),
        operation: op,
        cid: cid.to_string(),
        nullified: false,
        created_at: at(1_700_000_000),
    }
}

struct Memory {
    cells: BTreeMap<(&'static str, Vec<u8>), Stored>,
}

impl Memory {
    fn new() -> Memory {
        Memory { cells: BTreeMap::new() }
    }

    fn stats(&self) -> Option<Result<Stats, String>> {
        match self.cells.get(&("stats", storage_keys::stats_key())) {
            Some(Stored::Stats(stats)) => Some(Ok(stats.clone())),
            _ => None,
        }
    }

    fn apply(&mut self, step: Step) {
        match step {
            Step::Put { partition, key, value } => {
                self.cells.insert((partition.name(), key), value);
            }
            Step::Count(change) => {
                let stats = Database::update_stats(self.stats(), change).unwrap();
                self.cells.insert(("stats", storage_keys::stats_key()), Stored::Stats(stats));
            }
        }
    }

    fn has(&self, partition: Partition, key: &[u8]) -> bool {
        self.cells.contains_key(&(partition.name(), key.to_vec()))
    }

    fn did(&self, did: &str) -> Option<Result<DidRecord, String>> {
        match self.cells.get(&("dids", storage_keys::did_key(did))) {
            Some(Stored::Did(record)) => {
                let mut read = record.clone();
                read.document_val = Json::Null;
                Some(Ok(read))
            }
            _ => None,
        }
    }

    fn take_in(&mut self, entry: &LogEntry) -> Result<(), DbError> {
        let is_new = !self.has(Partition::Operations, &storage_keys::operation_key(&entry.cid));
        let (steps, changes_did) = Database::process_log_entry(entry, is_new);
        for step in steps {
            self.apply(step);
        }
        if changes_did {
            let record = Database::update_did_from_operation(
                &entry.did,
                &entry.operation,
                self.did(&entry.did),
            )?;
            let is_new = !self.has(Partition::Dids, &storage_keys::did_key(&record.did));
            for step in Database::upsert_did(record, is_new) {
                self.apply(step);
            }
        }
        Ok(())
    }

    fn resolve(&self, did: &str) -> Result<DidRecord, u16> {
        web::resolve_did(Database::get_did(did, self.did(did)))
    }
}

#[test]
fn what_is_taken_in_is_served() {
    let mut memory = Memory::new();
    memory.take_in(&entry("did:plc:a", "c1", operation("plc_operation", "at://one"))).unwrap();
    memory.take_in(&entry("did:plc:b", "c2", operation("plc_operation", "at://two"))).unwrap();
    let served = memory.resolve("did:plc:a").unwrap();
    assert_eq!(
        served.document_val.to_text(),
        r##"{"@context":["https://www.w3.org/ns/did/v1"],"alsoKnownAs":["at://one"],"id":"did:plc:a","service":[],"verificationMethod":[]}"##
    );
    memory.take_in(&entry("did:plc:a", "c3", operation("plc_operation", "at://new"))).unwrap();
    let again = memory.resolve("did:plc:a").unwrap();
    assert_eq!(again.id, served.id);
    assert_eq!(again.created_at, served.created_at);
    assert!(again.document_json_string.contains("at://new"));
    assert!(memory.resolve("did:plc:b").unwrap().document_json_string.contains("at://two"));
    assert_eq!(memory.resolve("did:plc:none").err(), Some(404));
    let stats = Database::get_stats(memory.stats()).unwrap();
    assert_eq!(stats.total_dids, 2);
    assert_eq!(stats.total_operations, 3);
}

#[test]
fn a_did_that_was_taken_out_of_use_is_gone_until_it_is_changed() {
    let mut memory = Memory::new();
    memory.take_in(&entry("did:plc:a", "c1", operation("plc_operation", "at://one"))).unwrap();
    memory.take_in(&entry("did:plc:a", "c2", operation("plc_tombstone", "x"))).unwrap();
    assert_eq!(memory.resolve("did:plc:a").err(), Some(410));
    let kept = memory.did("did:plc:a").unwrap().unwrap();
    assert!(kept.document_json_string.contains("at://one"));
    memory.take_in(&entry("did:plc:a", "c3", operation("plc_operation", "at://back"))).unwrap();
    assert!(memory.resolve("did:plc:a").is_ok());
}

#[test]
fn a_did_that_is_gone_from_the_start_is_not_counted() {
    let mut memory = Memory::new();
    memory.take_in(&entry("did:plc:t", "c1", operation("plc_tombstone", "x"))).unwrap();
    assert_eq!(memory.resolve("did:plc:t").err(), Some(410));
    assert_eq!(
        memory.did("did:plc:t").unwrap().unwrap().document_json_string,
        r##"{"@context":["https://www.w3.org/ns/did/v1"],"id":"did:plc:t"}"##
    );
    let stats = Database::get_stats(memory.stats()).unwrap();
    assert_eq!(stats.total_dids, 0);
    assert_eq!(stats.total_operations, 1);
}

#[test]
fn a_nullified_entry_is_stored_but_changes_no_did() {
    let mut memory = Memory::new();
    let mut nullified = entry("did:plc:a", "c1", operation("plc_operation", "at://one"));
    nullified.nullified = true;
    memory.take_in(&nullified).unwrap();
    assert_eq!(memory.resolve("did:plc:a").err(), Some(404));
    assert!(memory.has(Partition::Operations, b"op:c1"));
}

#[test]
fn an_operation_taken_in_twice_is_counted_once() {
    let mut memory = Memory::new();
    memory.take_in(&entry("did:plc:a", "c1", operation("plc_operation", "a"))).unwrap();
    memory.take_in(&entry("did:plc:a", "c1", operation("plc_operation", "b"))).unwrap();
    let stats = Database::get_stats(memory.stats()).unwrap();
    assert_eq!(stats.total_operations, 1);
    assert_eq!(stats.total_dids, 1);
}

#[test]
fn a_did_is_written_with_its_index_entry() {
    let record = DidRecord::new_at(1, at(1_700_000_000), "did:plc:a".to_string(), Json::Null);
    let steps = Database::upsert_did(record.clone(), true);
    assert_eq!(steps.len(), 3);
    assert!(matches!(&steps[0], Step::Put { partition: Partition::Dids, key, value: Stored::Did(r) }
        if key == b"did:did:plc:a" && r.id == 1));
    assert!(matches!(&steps[1], Step::Put { partition: Partition::DidIndex, key, value: Stored::Reference(name) }
        if key == b"did_idx:1700000000000:did:plc:a" && name == "did:plc:a"));
    assert!(matches!(steps[2], Step::Count(StatsChange::DidAdded)));
    assert_eq!(Database::upsert_did(record.clone(), false).len(), 2);
    let mut gone = record;
    gone.tombstone_at(at(5));
    assert_eq!(Database::upsert_did(gone, true).len(), 2);
}

#[test]
fn an_operation_is_written_with_its_two_index_entries() {
    let record = OperationRecord::new("d".to_string(), Json::Null, "c".to_string(), at(1));
    let steps = Database::upsert_operation_at(record.clone(), true, at(1_700_000_000));
    assert_eq!(steps.len(), 4);
    assert!(matches!(&steps[0], Step::Put { partition: Partition::Operations, key, value: Stored::Operation(o) }
        if key == b"op:c" && o.indexed_at == at(1_700_000_000) && o.created_at == at(1)));
    assert!(matches!(&steps[1], Step::Put { partition: Partition::OperationIndex, key, value: Stored::Reference(name) }
        if key == b"op_idx:1700000000000:c" && name == "c"));
    assert!(matches!(&steps[2], Step::Put { partition: Partition::OperationByDid, key, value: Stored::Reference(name) }
        if key == b"did_ops:d:1700000000000" && name == "c"));
    assert!(matches!(steps[3], Step::Count(StatsChange::OperationAdded)));
    assert_eq!(Database::upsert_operation(record, false).len(), 3);
}

#[test]
fn a_did_that_cannot_be_read_is_an_error() {
    assert!(matches!(Database::get_did("d", None), Ok(None)));
    let error = Database::get_did("did:plc:a", Some(Err("short".to_string()))).unwrap_err();
    assert_eq!(error.message(), "Failed to deserialize DidRecord for did:plc:a: short");
    let mut record = DidRecord::new_at(1, at(5), "did:plc:a".to_string(), Json::Null);
    record.document_json_string = "{bad".to_string();
    let error = Database::get_did("did:plc:a", Some(Ok(record.clone()))).unwrap_err();
    assert_eq!(error.message(), "Failed to parse JSON string for DID did:plc:a. String: {bad");
    assert_eq!(web::resolve_did(Err(error)).err(), Some(500));
    let op = operation("plc_operation", "a");
    let refused = Database::update_did_from_operation("did:plc:a", &op, Some(Ok(record)));
    assert!(matches!(refused, Err(DbError::BadDocument { .. })));
}

fn unreadable<T>() -> Option<Result<T, String>> {
    Some(Err("cut".to_string()))
}

#[test]
fn records_that_cannot_be_read_are_errors() {
    assert_eq!(
        Database::get_operation(unreadable()).unwrap_err().message(),
        "Failed to deserialize operation record"
    );
    assert_eq!(Database::get_job(unreadable()).unwrap_err().message(), "Failed to deserialize scraper job");
    assert_eq!(Database::get_stats(unreadable()).unwrap_err().message(), "Failed to deserialize stats");
    assert_eq!(
        Database::get_system_settings(unreadable()).unwrap_err().message(),
        "Failed to deserialize system settings"
    );
    assert_eq!(
        Database::get_scraper_config(unreadable()).unwrap_err().message(),
        "Failed to deserialize scraper config"
    );
    let peers: Vec<Result<Peer, String>> = vec![Err("cut".to_string())];
    assert_eq!(Database::get_peers(peers).unwrap_err().message(), "Failed to deserialize peer");
    assert!(matches!(Database::get_operation(None), Ok(None)));
    assert!(matches!(Database::get_job(None), Ok(None)));
    assert!(Database::update_stats(unreadable(), StatsChange::DidAdded).is_err());
}

#[test]
fn an_index_entry_names_a_record() {
    assert_eq!(Database::reference(IndexKind::Dids, b"did:plc:\xc3\xa9".to_vec()).unwrap(), "did:plc:é");
    let bad = |index: IndexKind| Database::reference(index, vec![0xff]).unwrap_err().message();
    assert_eq!(bad(IndexKind::Dids), "Invalid DID string in index");
    assert_eq!(bad(IndexKind::Operations), "Invalid CID string in index");
    assert_eq!(bad(IndexKind::OperationsOfDid), "Invalid CID string in operation index");
}

fn job(status: &str, started: i64) -> ScraperJob {
    let mut job = ScraperJob::new(status.to_string());
    job.status = status.to_string();
    job.started_at = at(started);
    job
}

#[test]
fn jobs_are_listed_from_the_last_that_was_started() {
    let jobs = || {
        vec![
            Ok(job("completed", 10)),
            Ok(job("running", 30)),
            Ok(job("pending", 20)),
            Ok(job("failed", 40)),
        ]
    };
    let order = |list: Vec<ScraperJob>| -> Vec<i64> { list.iter().map(|j| j.started_at.secs()).collect() };
    assert_eq!(order(Database::get_scraper_jobs(jobs()).unwrap()), vec![40, 30, 20, 10]);
    assert_eq!(order(Database::get_active_jobs(jobs()).unwrap()), vec![30, 20]);
    assert_eq!(order(Database::get_recent_jobs(jobs(), 2).unwrap()), vec![40, 30]);
    assert_eq!(order(Database::get_recent_jobs(jobs(), 9).unwrap()).len(), 4);
    assert!(Database::get_recent_jobs(jobs(), 0).unwrap().is_empty());
    let mut broken = jobs();
    broken.insert(1, Err("first".to_string()));
    broken.push(Err("second".to_string()));
    let error = Database::get_active_jobs(broken).unwrap_err();
    assert!(matches!(error, DbError::Unreadable { kind: RecordKind::Job, cause } if cause == "first"));
}

#[test]
fn a_job_is_written_under_its_identifier() {
    let mut written = job("running", 3);
    written.id = 0x0123_4567_89ab_4def_8123_4567_89ab_cdef;
    for step in [Database::insert_job(&written), Database::update_job(&written)] {
        assert!(matches!(&step, Step::Put { partition: Partition::Jobs, key, value: Stored::Job(j) }
            if key == b"job:01234567-89ab-4def-8123-456789abcdef" && j.started_at == at(3)));
    }
    assert!(matches!(Database::get_job(Some(Ok(written))), Ok(Some(j)) if j.status == "running"));
}

#[test]
fn settings_that_are_missing_are_written_with_their_defaults() {
    let (settings, step) = Database::get_system_settings(None).unwrap();
    assert_eq!(settings.storage_type, "");
    assert!(matches!(step, Some(Step::Put { partition: Partition::Settings, key, value: Stored::Settings(_) })
        if key == b"system_settings"));
    let (config, step) = Database::get_scraper_config(None).unwrap();
    assert!(!config.scraper_enabled);
    assert!(matches!(step, Some(Step::Put { partition: Partition::ScraperConfig, key, value: Stored::Config(_) })
        if key == b"scraper_config"));
    let mut kept = SystemSettings::default();
    kept.plc_directory_url = "https://x".to_string();
    let (read, step) = Database::get_system_settings(Some(Ok(kept))).unwrap();
    assert_eq!(read.plc_directory_url, "https://x");
    assert!(step.is_none());
    let (_, step) = Database::get_scraper_config(Some(Ok(ScraperConfig::default()))).unwrap();
    assert!(step.is_none());
    let peer = Peer::new("p1".to_string(), "addr".to_string(), 5);
    assert!(matches!(Database::upsert_peer(&peer), Step::Put { partition: Partition::Peers, key, value: Stored::Peer(p) }
        if key == b"peer:p1" && p.latency_ms == 5));
    assert_eq!(Database::get_peers(vec![Ok(peer)]).unwrap().len(), 1);
}

#[test]
fn the_totals_follow_what_is_counted() {
    let one = Database::update_stats(None, StatsChange::DidAdded).unwrap();
    assert_eq!(one.total_dids, 1);
    assert_eq!(one.average_ops_per_did, "0.00");
    let two = Database::update_stats(Some(Ok(one)), StatsChange::OperationAdded).unwrap();
    assert_eq!((two.total_dids, two.total_operations), (1, 1));
    let three = Database::update_stats(Some(Ok(two)), StatsChange::Synced(at(9))).unwrap();
    assert_eq!(three.last_sync, Some(at(9)));
    assert_eq!(three.total_operations, 1);
    assert!(matches!(Database::update_last_sync(), Step::Count(StatsChange::Synced(now))
        if (chrono::Utc::now().timestamp() - now.secs()).abs() < 60));
    assert!(matches!(Database::update_last_sync_at(at(9)), Step::Count(StatsChange::Synced(now))
        if now == at(9)));
}

#[test]
fn an_operation_is_taken_in_at_its_time() {
    let change = operation("plc_operation", "at://a");
    let stone = operation("plc_tombstone", "x");
    let new = Database::update_did_from_operation_at("d", &change, None, 5, at(10)).unwrap();
    assert_eq!((new.id, new.created_at, new.updated_at), (5, at(10), at(10)));
    let found = Some(Ok(new.clone()));
    let later = Database::update_did_from_operation_at("d", &change, found, 6, at(20)).unwrap();
    assert_eq!((later.id, later.created_at, later.updated_at), (5, at(10), at(20)));
    let found = Some(Ok(new));
    let gone = Database::update_did_from_operation_at("d", &stone, found, 6, at(30)).unwrap();
    assert_eq!((gone.id, gone.created_at, gone.updated_at), (5, at(10), at(30)));
    assert!(gone.is_tombstoned);
    let fresh = Database::update_did_from_operation_at("d", &stone, None, 8, at(40)).unwrap();
    assert_eq!((fresh.id, fresh.created_at, fresh.updated_at), (8, at(40), at(40)));
    let log = entry("d", "c", operation("plc_operation", "a"));
    let (steps, _) = Database::process_log_entry_at(&log, true, 3, at(50));
    assert!(matches!(&steps[0], Step::Put { value: Stored::Operation(o), .. }
        if o.id == 3 && o.indexed_at == at(50) && o.created_at == log.created_at));
}

#[test]
fn a_document_with_a_fraction_in_a_part_that_is_dropped_is_served() {
    let mut memory = Memory::new();
    let mut op = operation("plc_operation", "at://one");
    op.services = Json::parse(r#"{"odd":-1.5,"pds":{"type":"T","endpoint":"e","weight":0.1}}"#);
    memory.take_in(&entry("did:plc:a", "c1", op)).unwrap();
    assert!(memory.resolve("did:plc:a").unwrap().document_json_string.contains("\"#pds\""));
}

#[test]
fn the_operations_of_a_did_are_in_the_order_in_which_they_came() {
    let op = |cid: &str, secs: i64, nullified: bool| {
        let mut o = OperationRecord::new("d".to_string(), Json::Null, cid.to_string(), at(1));
        o.indexed_at = at(secs);
        o.nullified = nullified;
        Some(o)
    };
    let found = vec![op("c", 30, false), None, op("a", 10, false), op("x", 20, true), op("b", 10, false)];
    let cids: Vec<String> = Database::get_did_operations(found).into_iter().map(|o| o.cid).collect();
    assert_eq!(cids, vec!["a", "b", "c"]);
}

fn record(did: &str, doc: &str) -> DidRecord {
    let mut r = DidRecord::new_at(1, at(5), did.to_string(), Json::Null);
    r.document_json_string = doc.to_string();
    r
}

#[test]
fn a_page_skips_and_stops() {
    let mut page: Page<DidRecord> = Page::new(2, 1);
    assert_eq!(page.entry(), PageStep::Skip);
    assert_eq!(page.entry(), PageStep::Fetch);
    page.took(listing::shown(Some(record("a", "{}"))));
    assert_eq!(page.entry(), PageStep::Fetch);
    let mut gone = record("b", "{}");
    gone.tombstone_at(at(6));
    page.took(listing::shown(Some(gone)));
    assert_eq!(page.entry(), PageStep::Fetch);
    page.took(listing::shown(None));
    assert_eq!(page.entry(), PageStep::Fetch);
    page.took(listing::shown(Some(record("c", "{}"))));
    assert_eq!(page.entry(), PageStep::Stop);
    let dids: Vec<String> = page.items.into_iter().map(|r| r.did).collect();
    assert_eq!(dids, vec!["a", "c"]);
    let mut none: Page<OperationRecord> = Page::new(0, 0);
    assert_eq!(none.entry(), PageStep::Stop);
}

#[test]
fn pages_list_the_dids_that_are_not_gone() {
    let found = || {
        let mut gone = record("gone", "{}");
        gone.tombstone_at(at(6));
        vec![Some(record("a", "{}")), None, Some(gone), Some(record("b", "{}")), Some(record("c", "{}"))]
    };
    let page = |limit: usize, offset: usize| -> Vec<String> {
        let list = Database::get_dids_paginated(limit, offset, found());
        list.into_iter().map(|r| r.did).collect()
    };
    assert_eq!(page(10, 0), vec!["a", "b", "c"]);
    assert_eq!(page(2, 0), vec!["a", "b"]);
    assert_eq!(page(2, 1), vec!["b", "c"]);
    assert_eq!(page(2, 4), vec!["c"]);
    assert!(page(2, 9).is_empty());
    assert!(page(0, 0).is_empty());
    let op = |cid: &str| {
        Some(OperationRecord::new("d".to_string(), Json::Null, cid.to_string(), at(1)))
    };
    let list = Database::get_operations_paginated(2, 1, vec![op("x"), None, op("y"), op("z"), op("w")]);
    let cids: Vec<String> = list.into_iter().map(|o| o.cid).collect();
    assert_eq!(cids, vec!["y", "z"]);
}

fn sample() -> Vec<Result<DidRecord, String>> {
    vec![
        Ok(record("did:plc:ONE", r##"{"alsoKnownAs":["at://Alice.test"]}"##)),
        Err("unreadable".to_string()),
        Ok(record("did:plc:two", r##"{"service":[{"id":"#bsky_pds","serviceEndpoint":"https://ALICE.pds"}]}"##)),
        Ok(record("did:plc:three", "not json")),
        Ok(record("did:plc:four", r##"{"alsoKnownAs":["at://alice.four"]}"##)),
    ]
}

#[test]
fn a_search_looks_at_did_handle_and_server_in_any_case() {
    let search = |term: &str, limit: usize, offset: usize| -> Vec<String> {
        let mut search = Search::new(term, limit, offset);
        for read in sample() {
            if !search.offer_read(read) {
                break;
            }
        }
        let step_by_step: Vec<String> = search.results.into_iter().map(|r| r.did).collect();
        let at_once = Database::search_dids(term, limit, offset, sample());
        let at_once: Vec<String> = at_once.into_iter().map(|r| r.did).collect();
        assert_eq!(step_by_step, at_once);
        at_once
    };
    let count = |term: &str| -> usize {
        let mut count = SearchCount::new(term);
        for read in sample() {
            count.offer_read(read);
        }
        let at_once = Database::count_search_results(term, sample());
        assert_eq!(count.count, at_once);
        at_once
    };
    assert_eq!(search("aLiCe", 10, 0), vec!["did:plc:ONE", "did:plc:two", "did:plc:four"]);
    assert_eq!(search("alice", 1, 0), vec!["did:plc:ONE"]);
    assert_eq!(search("alice", 1, 1), vec!["did:plc:two"]);
    assert_eq!(search("alice", 5, 3), Vec::<String>::new());
    assert_eq!(search("ONE", 5, 0), vec!["did:plc:ONE"]);
    assert_eq!(search("three", 5, 0), vec!["did:plc:three"]);
    assert_eq!(search("", 9, 0).len(), 4);
    assert_eq!(count(""), 4);
    assert_eq!(search("", usize::MAX, 0).len(), count(""));
    for term in ["alice", "ALICE", "Alice"] {
        assert_eq!(search(term, usize::MAX, 0).len(), count(term));
        assert_eq!(count(term), 3);
    }
    assert_eq!(count("alice"), 3);
    assert_eq!(count("nobody"), 0);
    assert_eq!(count("did:plc"), 4);
}

#[test]
fn a_full_search_ends_at_the_next_record_that_it_finds() {
    let mut search = Search::new("alice", 1, 0);
    let mut seen = 0;
    for read in sample() {
        seen += 1;
        if !search.offer_read(read) {
            break;
        }
    }
    assert_eq!(seen, 3);
    assert_eq!(search.results.len(), 1);
}

#[test]
fn letter_case_is_that_of_unicode() {
    let r = record("ÄPFEL", "{}");
    assert!(listing::matches_term(&r, "äpfel"));
    assert!(!listing::matches_term(&r, "ÄPFEL"));
    let mut search = Search::new("Äp", 1, 0);
    assert!(search.offer_read(Ok(r)));
    assert_eq!(search.results.len(), 1);
}
