use plc_mirror::clock::Timestamp;
use plc_mirror::storage_keys;
use plc_mirror::store::Partition;

fn at(secs: i64, nanos: u32) -> Timestamp {
    Timestamp::new(secs, nanos).unwrap()
}

#[test]
fn each_kind_of_record_has_its_key() {
    let moment = at(1_700_000_000, 123_456_789);
    assert_eq!(storage_keys::did_key("did:plc:abc"), b"did:did:plc:abc".to_vec());
    assert_eq!(storage_keys::operation_key("bafy"), b"op:bafy".to_vec());
    assert_eq!(
        storage_keys::operation_by_did_key("did:plc:abc", moment),
        b"did_ops:did:plc:abc:1700000000123".to_vec()
    );
    assert_eq!(
        storage_keys::did_operations_prefix("did:plc:abc"),
        b"did_ops:did:plc:abc:".to_vec()
    );
    assert_eq!(
        storage_keys::did_index_key(moment, "did:plc:abc"),
        b"did_idx:1700000000123:did:plc:abc".to_vec()
    );
    assert_eq!(
        storage_keys::operation_index_key(moment, "bafy"),
        b"op_idx:1700000000123:bafy".to_vec()
    );
    assert_eq!(storage_keys::stats_key(), b"stats".to_vec());
    assert_eq!(storage_keys::settings_key(), b"system_settings".to_vec());
    assert_eq!(storage_keys::scraper_config_key(), b"scraper_config".to_vec());
    assert_eq!(storage_keys::peer_key("p1"), b"peer:p1".to_vec());
}

#[test]
fn a_job_key_holds_the_hyphenated_identifier() {
    let id: u128 = 0x0123_4567_89ab_4def_8123_4567_89ab_cdef;
    assert_eq!(
        storage_keys::job_key(id),
        b"job:01234567-89ab-4def-8123-456789abcdef".to_vec()
    );
    assert_ne!(storage_keys::job_key(1), storage_keys::job_key(2));
}

#[test]
fn the_index_is_in_order_of_time_among_times_of_the_same_length() {
    let early = storage_keys::did_index_key(at(1_700_000_000, 0), "z");
    let late = storage_keys::did_index_key(at(1_700_000_001, 0), "a");
    assert!(early < late);
    let short = storage_keys::operation_index_key(at(0, 999_000_000), "a");
    let long = storage_keys::operation_index_key(at(1, 0), "a");
    assert!(long < short);
}

#[test]
fn the_operations_of_a_did_are_found_under_its_prefix() {
    let key = storage_keys::operation_by_did_key("did:plc:abc", at(5, 0));
    assert!(key.starts_with(&storage_keys::did_operations_prefix("did:plc:abc")));
    assert!(!key.starts_with(&storage_keys::did_operations_prefix("did:plc:ab")));
    assert!(key.starts_with(&storage_keys::did_operations_prefix("did:plc")));
}

#[test]
fn every_partition_has_its_name() {
    let names: Vec<&str> = Partition::all().into_iter().map(|p| p.name()).collect();
    assert_eq!(
        names,
        vec![
            "dids",
            "operations",
            "jobs",
            "stats",
            "settings",
            "scraper_config",
            "peers",
            "did_index",
            "operation_index",
            "operation_by_did",
        ]
    );
}
