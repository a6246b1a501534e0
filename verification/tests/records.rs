use plc_mirror::clock::Timestamp;
use plc_mirror::json::Json;
use plc_mirror::models::{
    DidRecord, ExportQuery, OperationRecord, Peer, PlcOperation, ScraperConfig, ScraperJob, Stats,
    SystemSettings,
};

fn at(secs: i64) -> Timestamp {
    Timestamp::new(secs, 0).unwrap()
}

#[test]
fn a_new_record_keeps_its_document_as_text_and_as_value() {
    let doc = Json::parse(r#"{"id":"did:plc:a"}"#).unwrap();
    let record = DidRecord::new("did:plc:a".to_string(), doc);
    assert_eq!(record.did, "did:plc:a");
    assert_eq!(record.document_json_string, r#"{"id":"did:plc:a"}"#);
    assert_eq!(record.document_val.to_text(), record.document_json_string);
    assert!(record.last_operation_cid.is_none());
    assert_eq!(record.created_at, record.updated_at);
    assert!(!record.is_tombstoned);
    assert_eq!((record.id >> 76) & 0xf, 4);
    assert_eq!((record.id >> 62) & 0x3, 2);
}

#[test]
fn new_records_have_different_identifiers() {
    let a = DidRecord::new("a".to_string(), Json::Null);
    let b = DidRecord::new("a".to_string(), Json::Null);
    assert_ne!(a.id, b.id);
}

#[test]
fn the_clock_is_near_the_present() {
    let record = DidRecord::new("a".to_string(), Json::Null);
    let now = chrono::Utc::now().timestamp();
    assert!((now - record.created_at.secs()).abs() < 60);
}

#[test]
fn a_gone_did_comes_back_with_a_new_document() {
    let mut record = DidRecord::new_at(7, at(100), "did:plc:a".to_string(), Json::text("one"));
    assert_eq!(record.document_json_string, "\"one\"");
    record.tombstone_at(at(200));
    assert!(record.is_tombstoned);
    assert_eq!(record.updated_at, at(200));
    assert_eq!(record.document_json_string, "\"one\"");
    record.update_document_at(Json::text("two"), Some("bafy".to_string()), at(300));
    assert!(!record.is_tombstoned);
    assert_eq!(record.document_json_string, "\"two\"");
    assert_eq!(record.document_val.to_text(), "\"two\"");
    assert_eq!(record.last_operation_cid.as_deref(), Some("bafy"));
    assert_eq!(record.created_at, at(100));
    assert_eq!(record.updated_at, at(300));
    assert_eq!(record.id, 7);
    record.tombstone();
    assert!(record.is_tombstoned);
    record.update_document(Json::Null, None);
    assert!(!record.is_tombstoned);
    assert!(record.last_operation_cid.is_none());
    assert_eq!(record.document_json_string, "null");
}

#[test]
fn an_operation_is_valid_until_it_is_nullified() {
    let mut op =
        OperationRecord::new("d".to_string(), Json::Bool(true), "c".to_string(), at(5));
    assert!(!op.nullified);
    assert_eq!(op.created_at, at(5));
    assert_eq!(op.cid, "c");
    assert_eq!(op.operation.to_text(), "true");
    op.nullify();
    assert!(op.nullified);
    assert_eq!(op.created_at, at(5));
    assert_eq!(op.did, "d");
}

#[test]
fn a_job_waits_runs_and_ends() {
    let mut job = ScraperJob::new("export_sync".to_string());
    assert_eq!(job.status, "pending");
    assert_eq!(job.job_type, "export_sync");
    assert_eq!(job.records_processed, 0);
    job.start();
    assert_eq!(job.status, "running");
    job.update_progress(12, Some("cursor".to_string()));
    assert_eq!(job.records_processed, 12);
    assert_eq!(job.last_cursor.as_deref(), Some("cursor"));
    let mut other = job.clone();
    job.complete();
    assert_eq!(job.status, "completed");
    assert!(job.completed_at.is_some());
    assert!(job.error_message.is_none());
    other.fail("no answer".to_string());
    assert_eq!(other.status, "failed");
    assert_eq!(other.error_message.as_deref(), Some("no answer"));
    assert!(other.completed_at.is_some());
    assert_eq!(other.id, job.id);
    assert_eq!(other.records_processed, 12);
}

#[test]
fn records_carry_the_time_that_they_are_given() {
    let mut op =
        OperationRecord::new_at(7, at(10), "d".to_string(), Json::Null, "c".to_string(), at(5));
    assert_eq!((op.id, op.indexed_at, op.created_at), (7, at(10), at(5)));
    op.nullify_at(at(20));
    assert!(op.nullified);
    assert_eq!((op.indexed_at, op.created_at), (at(20), at(5)));
    let mut job = ScraperJob::new_at(9, at(30), "t".to_string());
    assert_eq!((job.id, job.started_at), (9, at(30)));
    assert_eq!(job.status, "pending");
    job.start_at(at(40));
    assert_eq!(job.started_at, at(40));
    assert!(job.completed_at.is_none());
    let mut other = job.clone();
    job.complete_at(at(50));
    assert_eq!((job.started_at, job.completed_at), (at(40), Some(at(50))));
    other.fail_at("e".to_string(), at(60));
    assert_eq!((other.started_at, other.completed_at), (at(40), Some(at(60))));
    assert_eq!(other.error_message.as_deref(), Some("e"));
    let peer = Peer::new_at(at(70), "p".to_string(), "a".to_string(), 1);
    assert_eq!(peer.last_heard, at(70));
}

#[test]
fn the_clock_moves_a_record_on() {
    let mut job = ScraperJob::new_at(9, at(30), "t".to_string());
    job.start();
    assert!(at(30).is_before(&job.started_at));
    let mut op =
        OperationRecord::new_at(7, at(10), "d".to_string(), Json::Null, "c".to_string(), at(5));
    op.nullify();
    assert!(at(10).is_before(&op.indexed_at));
}

#[test]
fn the_type_of_an_operation_tells_what_it_is() {
    let op = |op_type: &str| PlcOperation {
        op_type: op_type.to_string(),
        rotation_keys: None,
        verification_methods: None,
        also_known_as: None,
        services: None,
        prev: None,
        sig: String::new(),
        signing_key: None,
        recovery_key: None,
        handle: None,
        service: None,
    };
    assert!(op("plc_tombstone").is_tombstone());
    assert!(op("create").is_legacy_create());
    assert!(op("plc_operation").is_plc_operation());
    assert!(!op("Create").is_legacy_create());
    assert!(!op("plc_operation").is_tombstone());
    assert!(!op("").is_plc_operation());
}

#[test]
fn what_is_not_set_has_a_default() {
    let query = ExportQuery::default();
    assert_eq!(query.count, Some(1000));
    assert!(query.after.is_none());
    let stats = Stats::default();
    assert_eq!(stats.total_dids, 0);
    assert_eq!(stats.total_operations, 0);
    assert!(stats.last_sync.is_none());
    assert_eq!(stats.average_ops_per_did, "0.00");
    let settings = SystemSettings::default();
    assert_eq!(settings.plc_directory_url, "");
    assert!(!settings.clone().enable_email_notifications);
    assert!(settings.notification_email_address.is_none());
    let config = ScraperConfig::default();
    assert_eq!(config.clone().scraper_mode, "");
    assert!(!config.scraper_enabled);
    let peer = Peer::new("p".to_string(), "addr".to_string(), 12);
    assert_eq!(peer.clone().address, "addr");
    assert_eq!(peer.latency_ms, 12);
}
