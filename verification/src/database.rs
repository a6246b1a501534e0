//! The database: what is written for each record, and what is made of what was
//! read.

use vstd::prelude::*;
use vstd::string::*;
use crate::clock;
use crate::clock::Timestamp;
use crate::document;
use crate::ident;
use crate::json;
use crate::json::{Json, JsonView};
use crate::listing;
use crate::models;
use crate::models::{
    DidRecord, LogEntry, OperationRecord, Peer, PlcOperation, ScraperConfig, ScraperJob, Stats,
    SystemSettings,
};
use crate::storage_keys;
use crate::store;
use crate::store::{Partition, StatsChange, Step, StepView, Stored};
use crate::text;

verus! {

/// The database of the mirror. Its functions say which steps change the store,
/// and what is made of the values that were read from it.
pub struct Database;

/// The kinds of records that are read from the store, but for those of DIDs.
#[derive(Clone, Copy, Debug, PartialEq, Eq, Structural)]
pub enum RecordKind {
    Operation,
    Job,
    Stats,
    Settings,
    Config,
    Peer,
}

impl RecordKind {
    /// What such a record is called.
    pub open spec fn spec_label(self) -> Seq<char> {
        match self {
            RecordKind::Operation => "operation record"@,
            RecordKind::Job => "scraper job"@,
            RecordKind::Stats => "stats"@,
            RecordKind::Settings => "system settings"@,
            RecordKind::Config => "scraper config"@,
            RecordKind::Peer => "peer"@,
        }
    }

    /// What such a record is called.
    pub fn label(self) -> (r: &'static str)
        ensures
            r@ == self.spec_label(),
    {
        match self {
            RecordKind::Operation => "operation record",
            RecordKind::Job => "scraper job",
            RecordKind::Stats => "stats",
            RecordKind::Settings => "system settings",
            RecordKind::Config => "scraper config",
            RecordKind::Peer => "peer",
        }
    }
}

/// The indexes, each of which holds names of records.
#[derive(Clone, Copy, Debug, PartialEq, Eq, Structural)]
pub enum IndexKind {
    Dids,
    Operations,
    OperationsOfDid,
}

/// Why a record could not be had.
#[derive(Debug)]
pub enum DbError {
    /// What stands under the key of the DID is no record of a DID.
    UnreadableDid { did: String, cause: String },
    /// The stored document of the DID is no JSON.
    BadDocument { did: String, document: String },
    /// What stands under the key is no such record.
    Unreadable { kind: RecordKind, cause: String },
    /// An entry of the index is no text.
    BadReference(IndexKind),
}

impl DbError {
    /// What the error says.
    pub open spec fn spec_message(self) -> Seq<char> {
        match self {
            DbError::UnreadableDid { did, cause } => "Failed to deserialize DidRecord for "@ + did@
                + ": "@ + cause@,
            DbError::BadDocument { did, document } => "Failed to parse JSON string for DID "@ + did@
                + ". String: "@ + document@,
            DbError::Unreadable { kind, cause } => "Failed to deserialize "@ + kind.spec_label(),
            DbError::BadReference(IndexKind::Dids) => "Invalid DID string in index"@,
            DbError::BadReference(IndexKind::Operations) => "Invalid CID string in index"@,
            DbError::BadReference(
                IndexKind::OperationsOfDid,
            ) => "Invalid CID string in operation index"@,
        }
    }

    /// What the error says.
    pub fn message(&self) -> (r: String)
        ensures
            r@ == self.spec_message(),
    {
        match self {
            DbError::UnreadableDid {
                did,
                cause,
            } => "Failed to deserialize DidRecord for ".to_owned().concat(did.as_str()).concat(
                ": ",
            ).concat(cause.as_str()),
            DbError::BadDocument {
                did,
                document,
            } => "Failed to parse JSON string for DID ".to_owned().concat(did.as_str()).concat(
                ". String: ",
            ).concat(document.as_str()),
            DbError::Unreadable { kind, .. } => "Failed to deserialize ".to_owned().concat(
                kind.label(),
            ),
            DbError::BadReference(index) => match index {
                IndexKind::Dids => "Invalid DID string in index".to_owned(),
                IndexKind::Operations => "Invalid CID string in index".to_owned(),
                IndexKind::OperationsOfDid => "Invalid CID string in operation index".to_owned(),
            },
        }
    }
}

/// What an error says names the DID and the cause or the document, or what kind of
/// record could not be read.
pub proof fn law_database_error_names_its_cause(error: DbError)
    ensures
        error matches DbError::UnreadableDid { did, cause } ==> text::has_part(
            error.spec_message(),
            did@ + ": "@ + cause@,
        ),
        error matches DbError::BadDocument { did, document } ==> text::has_part(
            error.spec_message(),
            did@ + ". String: "@ + document@,
        ),
        error matches DbError::Unreadable { kind, cause } ==> error.spec_message()
            == "Failed to deserialize "@ + kind.spec_label(),
{
    match error {
        DbError::UnreadableDid { did, cause } => {
            let head = "Failed to deserialize DidRecord for "@;
            let part = did@ + ": "@ + cause@;
            assert(error.spec_message() =~= head + part + Seq::<char>::empty());
            text::law_part_stands_between(head, part, Seq::empty());
        },
        DbError::BadDocument { did, document } => {
            let head = "Failed to parse JSON string for DID "@;
            let part = did@ + ". String: "@ + document@;
            assert(error.spec_message() =~= head + part + Seq::<char>::empty());
            text::law_part_stands_between(head, part, Seq::empty());
        },
        _ => {},
    }
}

/// What is made of what was found under the key of a record: nothing, a
/// record, or why it is none.
pub open spec fn record_found<T>(kind: RecordKind, found: Option<Result<T, String>>) -> Result<
    Option<T>,
    DbError,
> {
    match found {
        None => Ok(None),
        Some(Ok(record)) => Ok(Some(record)),
        Some(Err(cause)) => Err(DbError::Unreadable { kind, cause }),
    }
}

/// A record that was found is given back as it was found, none where none was, and
/// an error if and only if what was found is no record; it then names the kind of
/// record and the cause.
pub proof fn law_record_found<T>(kind: RecordKind, found: Option<Result<T, String>>, record: T)
    ensures
        record_found(kind, found) == Ok::<Option<T>, DbError>(Some(record)) <==> found == Some(
            Ok::<T, String>(record),
        ),
        record_found(kind, found) == Ok::<Option<T>, DbError>(None) <==> found is None,
        record_found(kind, found) is Err <==> found is Some && found->0 is Err,
        found is Some && found->0 is Err ==> record_found(kind, found)->Err_0 == (
        DbError::Unreadable { kind, cause: found->0->Err_0 }),
{
}

/// What is made of what was found under the key of a record.
fn read_record<T>(kind: RecordKind, found: Option<Result<T, String>>) -> (r: Result<
    Option<T>,
    DbError,
>)
    ensures
        r == record_found(kind, found),
{
    match found {
        None => Ok(None),
        Some(Ok(record)) => Ok(Some(record)),
        Some(Err(cause)) => Err(DbError::Unreadable { kind, cause }),
    }
}

/// All that was found is readable.
pub open spec fn all_readable<T>(found: Seq<Result<T, String>>) -> bool {
    forall|i: int| 0 <= i < found.len() ==> (#[trigger] found[i]) is Ok
}

/// What was found at `at` is the first that is not readable.
pub open spec fn first_unreadable<T>(found: Seq<Result<T, String>>, at: int) -> bool {
    &&& 0 <= at < found.len()
    &&& found[at] is Err
    &&& forall|i: int| 0 <= i < at ==> (#[trigger] found[i]) is Ok
}

/// The records that were found.
pub open spec fn records<T>(found: Seq<Result<T, String>>) -> Seq<T> {
    found.map_values(|f: Result<T, String>| f->Ok_0)
}

/// Where not all that was found is readable, the error names the first that is
/// not.
pub open spec fn refused<T>(kind: RecordKind, found: Seq<Result<T, String>>, error: DbError) -> bool {
    exists|at: int|
        #[trigger] first_unreadable(found, at) && error == (DbError::Unreadable {
            kind,
            cause: found[at]->Err_0,
        })
}

/// A list is given back whole, each record in its place, if all that was found is
/// readable; otherwise the error is that of the first that is not, of that kind.
pub proof fn law_records_found<T>(
    kind: RecordKind,
    found: Seq<Result<T, String>>,
    error: DbError,
)
    ensures
        records(found).len() == found.len(),
        all_readable(found) ==> forall|i: int|
            0 <= i < found.len() ==> Ok::<T, String>(#[trigger] records(found)[i]) == found[i],
        all_readable(found) <==> forall|i: int|
            0 <= i < found.len() ==> !((#[trigger] found[i]) is Err),
        refused(kind, found, error) ==> exists|at: int|
            0 <= at < found.len() && (#[trigger] found[at]) is Err && error == (
            DbError::Unreadable { kind, cause: found[at]->Err_0 }) && forall|i: int|
                0 <= i < at ==> (#[trigger] found[i]) is Ok,
{
    if refused(kind, found, error) {
        let at = choose|at: int|
            #[trigger] first_unreadable(found, at) && error == (DbError::Unreadable {
                kind,
                cause: found[at]->Err_0,
            });
        assert(found[at] is Err);
    }
}

/// The records that were found, where all of them are readable.
fn read_records<T>(kind: RecordKind, found: Vec<Result<T, String>>) -> (r: Result<
    Vec<T>,
    DbError,
>)
    ensures
        match r {
            Ok(list) => all_readable(found@) && list@ == records(found@),
            Err(error) => !all_readable(found@) && refused(kind, found@, error),
        },
{
    let ghost all = found@;
    let mut out: Vec<T> = Vec::new();
    for entry in it: found
        invariant
            it.seq() == all,
            all == found@,
            forall|i: int| 0 <= i < it.index() ==> (#[trigger] all[i]) is Ok,
            out@ == records(all.take(it.index())),
    {
        match entry {
            Ok(record) => {
                out.push(record);
                assert(out@ =~= records(all.take(it.index() + 1)));
            },
            Err(cause) => {
                assert(first_unreadable(all, it.index() as int));
                return Err(DbError::Unreadable { kind, cause });
            },
        }
    }
    assert(all.take(all.len() as int) =~= all);
    Ok(out)
}

/// What is written for a DID: its record, its entry in the index of the DIDs,
/// and one more in the total where it is new and not gone.
pub open spec fn upsert_did_steps(record: DidRecord, is_new: bool) -> Seq<StepView> {
    let written = seq![
        StepView::Put {
            partition: Partition::Dids,
            key: storage_keys::spec_did_key(record.did@),
            value: Stored::Did(record),
        },
        StepView::Put {
            partition: Partition::DidIndex,
            key: storage_keys::spec_did_index_key(record.updated_at.spec_millis(), record.did@),
            value: Stored::Reference(record.did),
        },
    ];
    if is_new && !record.is_tombstoned {
        written.push(StepView::Count(StatsChange::DidAdded))
    } else {
        written
    }
}

/// What is written for an operation: its record, its entry in the index of the
/// operations and in that of its DID, and one more in the total where it is
/// new.
pub open spec fn upsert_operation_steps(record: OperationRecord, is_new: bool) -> Seq<StepView> {
    let millis = record.indexed_at.spec_millis();
    let written = seq![
        StepView::Put {
            partition: Partition::Operations,
            key: storage_keys::spec_operation_key(record.cid@),
            value: Stored::Operation(record),
        },
        StepView::Put {
            partition: Partition::OperationIndex,
            key: storage_keys::spec_operation_index_key(millis, record.cid@),
            value: Stored::Reference(record.cid),
        },
        StepView::Put {
            partition: Partition::OperationByDid,
            key: storage_keys::spec_operation_by_did_key(record.did@, millis),
            value: Stored::Reference(record.cid),
        },
    ];
    if is_new {
        written.push(StepView::Count(StatsChange::OperationAdded))
    } else {
        written
    }
}

/// The step that writes a job.
pub open spec fn job_step(job: ScraperJob) -> StepView {
    StepView::Put {
        partition: Partition::Jobs,
        key: storage_keys::spec_job_key(job.id),
        value: Stored::Job(job),
    }
}

/// The step that writes the settings.
pub open spec fn settings_step(settings: SystemSettings) -> StepView {
    StepView::Put {
        partition: Partition::Settings,
        key: storage_keys::key("system_settings"@),
        value: Stored::Settings(settings),
    }
}

/// The step that writes the scraper's configuration.
pub open spec fn config_step(config: ScraperConfig) -> StepView {
    StepView::Put {
        partition: Partition::ScraperConfig,
        key: storage_keys::key("scraper_config"@),
        value: Stored::Config(config),
    }
}

/// The step that writes a peer.
pub open spec fn peer_step(peer: Peer) -> StepView {
    StepView::Put {
        partition: Partition::Peers,
        key: storage_keys::spec_peer_key(peer.id@),
        value: Stored::Peer(peer),
    }
}

/// What an operation that is taken in at `now` makes of the record of its DID. A
/// tombstone marks it as gone and leaves its stored document; any other
/// operation gives it a new document. A DID without a record gets one, with
/// that identifier.
pub open spec fn operation_gives(
    record: DidRecord,
    did: Seq<char>,
    operation: PlcOperation,
    existing: Option<DidRecord>,
    id: u128,
    now: Timestamp,
) -> bool {
    if operation.op_type@ == "plc_tombstone"@ {
        &&& record.document_val@ == document::base_document(did)
        &&& match existing {
            Some(before) => record == (DidRecord {
                is_tombstoned: true,
                updated_at: now,
                document_val: record.document_val,
                ..before
            }),
            None => {
                &&& record.id == id
                &&& record.did@ == did
                &&& record.document_json_string@ == json::text_or_empty(
                    document::base_document(did),
                )
                &&& json::parsed(record.document_json_string@) == Some(document::base_document(did))
                &&& record.last_operation_cid is None
                &&& record.created_at == now
                &&& record.updated_at == now
                &&& record.is_tombstoned
            },
        }
    } else {
        let doc = document::did_document(did, operation);
        &&& record.document_val@ == doc
        &&& record.document_json_string@ == json::text_or_empty(doc)
        &&& json::reads_back(doc) ==> json::parsed(record.document_json_string@) == Some(doc)
        &&& record.last_operation_cid is None
        &&& record.updated_at == now
        &&& !record.is_tombstoned
        &&& match existing {
            Some(before) => {
                &&& record.id == before.id
                &&& record.did == before.did
                &&& record.created_at == before.created_at
            },
            None => {
                &&& record.id == id
                &&& record.did@ == did
                &&& record.created_at == now
            },
        }
    }
}

/// What an operation makes of a record. It changed then, and is gone if and only if
/// the operation is a tombstone. Its identifier, its DID and when it was made stay
/// where there was one; a new one gets them. A tombstone leaves the text of the
/// document and the operation that it follows; any other operation puts its own
/// document in their place.
pub proof fn law_operation_makes_the_record(
    record: DidRecord,
    did: Seq<char>,
    operation: PlcOperation,
    existing: Option<DidRecord>,
    id: u128,
    now: Timestamp,
)
    requires
        operation_gives(record, did, operation, existing, id, now),
    ensures
        record.updated_at == now,
        record.is_tombstoned <==> operation.op_type@ == "plc_tombstone"@,
        existing matches Some(before) ==> {
            &&& record.id == before.id
            &&& record.did == before.did
            &&& record.created_at == before.created_at
        },
        existing is None ==> {
            &&& record.id == id
            &&& record.did@ == did
            &&& record.created_at == now
            &&& record.last_operation_cid is None
        },
        operation.op_type@ == "plc_tombstone"@ ==> {
            &&& record.document_val@ == document::base_document(did)
            &&& existing matches Some(before) ==> {
                &&& record.document_json_string == before.document_json_string
                &&& record.last_operation_cid == before.last_operation_cid
            }
            &&& existing is None ==> {
                &&& record.document_json_string@ == json::text_or_empty(
                    document::base_document(did),
                )
                &&& json::parsed(record.document_json_string@) == Some(
                    document::base_document(did),
                )
            }
        },
        operation.op_type@ != "plc_tombstone"@ ==> {
            let document = document::did_document(did, operation);
            &&& record.document_val@ == document
            &&& record.document_json_string@ == json::text_or_empty(document)
            &&& json::reads_back(document) ==> json::parsed(record.document_json_string@) == Some(
                document,
            )
            &&& record.last_operation_cid is None
        },
{
}

/// What is made of what was found for a DID: its record with the value of its
/// stored document, or why there is none.
pub open spec fn did_read(
    did: Seq<char>,
    found: Option<Result<DidRecord, String>>,
    r: Result<Option<DidRecord>, DbError>,
) -> bool {
    match found {
        None => r == Ok::<Option<DidRecord>, DbError>(None),
        Some(Err(cause)) => r matches Err(DbError::UnreadableDid { did: d, cause: c }) && d@ == did
            && c == cause,
        Some(Ok(stored)) => match json::parsed(stored.document_json_string@) {
            Some(v) => r matches Ok(Some(record)) && record == (DidRecord {
                document_val: record.document_val,
                ..stored
            }) && record.document_val@ == v,
            None => r matches Err(DbError::BadDocument { did: d, document: t }) && d@ == did && t
                == stored.document_json_string,
        },
    }
}

/// The record of a DID is given back if and only if one was found and its stored
/// document is JSON, and with nothing of it changed but the value of the document,
/// which is then what the text says. That there is none is said if and only if
/// none was found; otherwise the error names the DID, and the cause or the text.
pub proof fn law_did_is_read(
    did: Seq<char>,
    found: Option<Result<DidRecord, String>>,
    r: Result<Option<DidRecord>, DbError>,
)
    requires
        did_read(did, found, r),
    ensures
        r == Ok::<Option<DidRecord>, DbError>(None) <==> found is None,
        r is Err <==> found is Some && (found->0 is Err || json::parsed(
            found->0->Ok_0.document_json_string@,
        ) is None),
        r is Ok && r->Ok_0 is Some ==> {
            let record = r->Ok_0->0;
            let stored = found->0->Ok_0;
            &&& record.id == stored.id
            &&& record.did == stored.did
            &&& record.document_json_string == stored.document_json_string
            &&& record.last_operation_cid == stored.last_operation_cid
            &&& record.created_at == stored.created_at
            &&& record.updated_at == stored.updated_at
            &&& record.is_tombstoned == stored.is_tombstoned
            &&& json::parsed(stored.document_json_string@) == Some(record.document_val@)
        },
        r is Err && found->0 is Err ==> (r->Err_0 matches DbError::UnreadableDid { did: named, cause }
            && named@ == did && cause == found->0->Err_0),
        r is Err && found->0 is Ok ==> (r->Err_0 matches DbError::BadDocument {
            did: named,
            document,
        } && named@ == did && document == found->0->Ok_0.document_json_string),
{
}

/// The operations in the order in which they were taken in, without those that
/// were nullified.
pub open spec fn valid_operations(found: Seq<Option<OperationRecord>>) -> Seq<OperationRecord> {
    listing::in_time_order(
        listing::present(found).filter(|o: OperationRecord| !o.nullified),
        false,
    )
}

/// Whether a job waits or runs.
pub open spec fn is_active(job: ScraperJob) -> bool {
    job.status@ == "running"@ || job.status@ == "pending"@
}

/// A job waits or runs when it is made and when it is started, and no longer when
/// it has ended, well or not.
pub proof fn law_jobs_are_active_until_they_end(
    made: ScraperJob,
    id: u128,
    at: Timestamp,
    job_type: String,
    before: ScraperJob,
    running: ScraperJob,
    done: ScraperJob,
    failed: ScraperJob,
    error: Seq<char>,
)
    ensures
        made.fresh(id, at, job_type) ==> is_active(made),
        running.started(before, at) ==> is_active(running),
        done.completed(before, at) ==> !is_active(done),
        failed.failed(before, at, error) ==> !is_active(failed),
        is_active(before) ==> before.status@ == "running"@ || before.status@ == "pending"@,
{
    reveal_strlit("running");
    reveal_strlit("pending");
    reveal_strlit("completed");
    reveal_strlit("failed");
    assert("running"@.len() == 7);
    assert("pending"@.len() == 7);
    assert("completed"@.len() == 9);
    assert("failed"@.len() == 6);
}

impl Database {
    /// The totals: those that are stored, or those of an empty mirror.
    pub fn get_stats(found: Option<Result<Stats, String>>) -> (r: Result<Stats, DbError>)
        ensures
            match record_found(RecordKind::Stats, found) {
                Ok(stored) => r matches Ok(stats) && store::starts_from(stored, stats),
                Err(error) => r == Err::<Stats, DbError>(error),
            },
    {
        match read_record(RecordKind::Stats, found) {
            Ok(Some(stats)) => Ok(stats),
            Ok(None) => Ok(Stats::default()),
            Err(error) => Err(error),
        }
    }

    /// The totals after a change.
    pub fn update_stats(found: Option<Result<Stats, String>>, change: StatsChange) -> (r: Result<
        Stats,
        DbError,
    >)
        requires
            found matches Some(Ok(base)) ==> store::has_room(base, change),
        ensures
            match record_found(RecordKind::Stats, found) {
                Ok(stored) => r matches Ok(stats) && store::counts(stored, change, stats),
                Err(error) => r == Err::<Stats, DbError>(error),
            },
    {
        let mut stats = match Database::get_stats(found) {
            Ok(stats) => stats,
            Err(error) => {
                return Err(error);
            },
        };
        let ghost base = stats;
        match change {
            StatsChange::DidAdded => {
                stats.total_dids = stats.total_dids + 1;
            },
            StatsChange::OperationAdded => {
                stats.total_operations = stats.total_operations + 1;
            },
            StatsChange::Synced(at) => {
                stats.last_sync = Some(at);
            },
        }
        proof {
            let stored = record_found(RecordKind::Stats, found)->Ok_0;
            assert(store::starts_from(stored, base));
            assert(stats == store::changed(base, change));
        }
        Ok(stats)
    }

    /// What is written for a DID.
    pub fn upsert_did(did_record: DidRecord, is_new: bool) -> (r: Vec<Step>)
        ensures
            store::step_views(r@) == upsert_did_steps(did_record, is_new),
    {
        let mut steps: Vec<Step> = Vec::new();
        let key = storage_keys::did_key(did_record.did.as_str());
        let index_key = storage_keys::did_index_key(
            did_record.updated_at,
            did_record.did.as_str(),
        );
        let reference = did_record.did.clone();
        let counts = is_new && !did_record.is_tombstoned;
        steps.push(Step::Put { partition: Partition::Dids, key, value: Stored::Did(did_record) });
        steps.push(
            Step::Put {
                partition: Partition::DidIndex,
                key: index_key,
                value: Stored::Reference(reference),
            },
        );
        if counts {
            steps.push(Step::Count(StatsChange::DidAdded));
        }
        assert(store::step_views(steps@) =~= upsert_did_steps(did_record, is_new));
        steps
    }

    /// The record of a DID, with the value of its stored document.
    pub fn get_did(did: &str, found: Option<Result<DidRecord, String>>) -> (r: Result<
        Option<DidRecord>,
        DbError,
    >)
        ensures
            did_read(did@, found, r),
    {
        match found {
            None => Ok(None),
            Some(Err(cause)) => Err(DbError::UnreadableDid { did: did.to_owned(), cause }),
            Some(Ok(stored)) => match Json::parse(stored.document_json_string.as_str()) {
                Some(document_val) => Ok(Some(DidRecord { document_val, ..stored })),
                None => Err(
                    DbError::BadDocument {
                        did: did.to_owned(),
                        document: stored.document_json_string,
                    },
                ),
            },
        }
    }

    /// A page of the DIDs that are not gone, of what was found for the entries
    /// of their index from the last one on.
    pub fn get_dids_paginated(limit: usize, offset: usize, found: Vec<Option<DidRecord>>) -> (r:
        Vec<DidRecord>)
        ensures
            r@ == listing::page_of(
                limit as int,
                offset as int,
                found@.map_values(|f: Option<DidRecord>| listing::spec_shown(f)),
            ),
            offset <= found@.len() && limit >= found@.len() - offset ==> r@ == listing::present(
                found@.skip(offset as int),
            ).filter(|r: DidRecord| !r.is_tombstoned),
    {
        let ghost all = found@;
        let mut shown: Vec<Option<DidRecord>> = Vec::new();
        for record in it: found
            invariant
                it.seq() == all,
                shown@ == all.take(it.index()).map_values(
                    |f: Option<DidRecord>| listing::spec_shown(f),
                ),
        {
            shown.push(listing::shown(record));
            assert(shown@ =~= all.take(it.index() + 1).map_values(
                |f: Option<DidRecord>| listing::spec_shown(f),
            ));
        }
        assert(all.take(all.len() as int) =~= all);
        proof {
            if offset <= all.len() {
                listing::law_listed_dids(limit as int, offset as int, all);
            }
        }
        listing::read_page(limit, offset, shown)
    }

    /// The DIDs that a search finds: in the DID, in its handle, or in where its
    /// personal data server is.
    pub fn search_dids(
        search_term: &str,
        limit: usize,
        offset: usize,
        reads: Vec<Result<DidRecord, String>>,
    ) -> (r: Vec<DidRecord>)
        ensures
            exists|ready: Seq<DidRecord>| #[trigger]
                listing::all_documented(ready, listing::readable(reads@)) && r@ == listing::window(
                    listing::all_hits(text::lower_case(search_term@), ready),
                    limit as int,
                    offset as int,
                ) && (search_term@.len() == 0 ==> r@ == listing::window(
                    ready,
                    limit as int,
                    offset as int,
                )),
    {
        listing::search(search_term, limit, offset, reads)
    }

    /// How many DIDs a search finds.
    pub fn count_search_results(search_term: &str, reads: Vec<Result<DidRecord, String>>) -> (r:
        usize)
        ensures
            exists|ready: Seq<DidRecord>| #[trigger]
                listing::all_documented(ready, listing::readable(reads@)) && r == listing::all_hits(
                    text::lower_case(search_term@),
                    ready,
                ).len(),
            search_term@.len() == 0 ==> r == listing::readable(reads@).len(),
    {
        listing::count_hits(search_term, reads)
    }

    /// What is written for an operation that is taken in now.
    pub fn upsert_operation(operation_record: OperationRecord, is_new: bool) -> (r: Vec<Step>)
        ensures
            exists|now: Timestamp|
                clock::is_clock_time(now) && store::step_views(r@)
                    == #[trigger] upsert_operation_steps(
                    OperationRecord { indexed_at: now, ..operation_record },
                    is_new,
                ),
    {
        let now = clock::utc_now();
        Database::upsert_operation_at(operation_record, is_new, now)
    }

    /// What is written for an operation that is taken in at `now`.
    pub fn upsert_operation_at(
        operation_record: OperationRecord,
        is_new: bool,
        now: Timestamp,
    ) -> (r: Vec<Step>)
        ensures
            store::step_views(r@) == upsert_operation_steps(
                OperationRecord { indexed_at: now, ..operation_record },
                is_new,
            ),
    {
        let record = OperationRecord { indexed_at: now, ..operation_record };
        let mut steps: Vec<Step> = Vec::new();
        let key = storage_keys::operation_key(record.cid.as_str());
        let index_key = storage_keys::operation_index_key(now, record.cid.as_str());
        let did_key = storage_keys::operation_by_did_key(record.did.as_str(), now);
        let reference = record.cid.clone();
        let did_reference = record.cid.clone();
        let ghost written = record;
        steps.push(
            Step::Put { partition: Partition::Operations, key, value: Stored::Operation(record) },
        );
        steps.push(
            Step::Put {
                partition: Partition::OperationIndex,
                key: index_key,
                value: Stored::Reference(reference),
            },
        );
        steps.push(
            Step::Put {
                partition: Partition::OperationByDid,
                key: did_key,
                value: Stored::Reference(did_reference),
            },
        );
        if is_new {
            steps.push(Step::Count(StatsChange::OperationAdded));
        }
        assert(store::step_views(steps@) =~= upsert_operation_steps(written, is_new));
        steps
    }

    /// An operation.
    pub fn get_operation(found: Option<Result<OperationRecord, String>>) -> (r: Result<
        Option<OperationRecord>,
        DbError,
    >)
        ensures
            r == record_found(RecordKind::Operation, found),
    {
        read_record(RecordKind::Operation, found)
    }

    /// The name of the record that an index entry stands for.
    pub fn reference(index: IndexKind, bytes: Vec<u8>) -> (r: Result<String, DbError>)
        ensures
            match r {
                Ok(name) => vstd::utf8::encode_utf8(name@) == bytes@,
                Err(error) => !vstd::utf8::valid_utf8(bytes@) && error == DbError::BadReference(
                    index,
                ),
            },
            vstd::utf8::valid_utf8(bytes@) ==> r is Ok,
    {
        match text::text_from_utf8(bytes) {
            Some(name) => Ok(name),
            None => Err(DbError::BadReference(index)),
        }
    }

    /// A page of the operations, of what was found for the entries of their
    /// index from the last one on.
    pub fn get_operations_paginated(
        limit: usize,
        offset: usize,
        found: Vec<Option<OperationRecord>>,
    ) -> (r: Vec<OperationRecord>)
        ensures
            r@ == listing::page_of(limit as int, offset as int, found@),
    {
        listing::read_page(limit, offset, found)
    }

    /// The operations of a DID, of what was found for its index entries.
    pub fn get_did_operations(found: Vec<Option<OperationRecord>>) -> (r: Vec<OperationRecord>)
        ensures
            r@ == valid_operations(found@),
    {
        let ghost all = found@;
        let ghost valid = |o: OperationRecord| !o.nullified;
        let mut kept: Vec<OperationRecord> = Vec::new();
        proof {
            reveal(Seq::filter);
            assert(all.take(0) =~= seq![]);
            assert(kept@ =~= listing::present(all.take(0)).filter(valid));
        }
        for entry in it: found
            invariant
                it.seq() == all,
                valid == (|o: OperationRecord| !o.nullified),
                kept@ == listing::present(all.take(it.index())).filter(valid),
        {
            proof {
                reveal(Seq::filter);
                let next = all.take(it.index() + 1);
                assert(next.drop_last() =~= all.take(it.index()));
                assert(next.last() == entry);
                if entry is Some {
                    let had = listing::present(all.take(it.index()));
                    assert(had.push(entry->0).drop_last() =~= had);
                }
            }
            if let Some(operation) = entry {
                if !operation.nullified {
                    kept.push(operation);
                }
            }
        }
        assert(all.take(all.len() as int) =~= all);
        listing::sort_by_time(kept, false)
    }

    /// What is written for a new job.
    pub fn insert_job(job: &ScraperJob) -> (r: Step)
        ensures
            r@ == job_step(*job),
    {
        Step::Put {
            partition: Partition::Jobs,
            key: storage_keys::job_key(job.id),
            value: Stored::Job(job.clone()),
        }
    }

    /// What is written for a job that has changed.
    pub fn update_job(job: &ScraperJob) -> (r: Step)
        ensures
            r@ == job_step(*job),
    {
        Database::insert_job(job)
    }

    /// A job.
    pub fn get_job(found: Option<Result<ScraperJob, String>>) -> (r: Result<
        Option<ScraperJob>,
        DbError,
    >)
        ensures
            r == record_found(RecordKind::Job, found),
    {
        read_record(RecordKind::Job, found)
    }

    /// The jobs that wait or run, the last that was started first.
    pub fn get_active_jobs(found: Vec<Result<ScraperJob, String>>) -> (r: Result<
        Vec<ScraperJob>,
        DbError,
    >)
        ensures
            match r {
                Ok(list) => all_readable(found@) && list@ == listing::in_time_order(
                    records(found@).filter(|j: ScraperJob| is_active(j)),
                    true,
                ),
                Err(error) => !all_readable(found@) && refused(RecordKind::Job, found@, error),
            },
    {
        let jobs = match read_records(RecordKind::Job, found) {
            Ok(jobs) => jobs,
            Err(error) => {
                return Err(error);
            },
        };
        let ghost all = jobs@;
        let ghost active = |j: ScraperJob| is_active(j);
        let mut kept: Vec<ScraperJob> = Vec::new();
        proof {
            reveal(Seq::filter);
            assert(all.take(0) =~= seq![]);
            assert(kept@ =~= all.take(0).filter(active));
        }
        for job in it: jobs
            invariant
                it.seq() == all,
                active == (|j: ScraperJob| is_active(j)),
                kept@ == all.take(it.index()).filter(active),
        {
            proof {
                reveal(Seq::filter);
                assert(all.take(it.index() + 1).drop_last() =~= all.take(it.index()));
            }
            if text::str_eq(job.status.as_str(), "running") || text::str_eq(
                job.status.as_str(),
                "pending",
            ) {
                kept.push(job);
            }
        }
        assert(all.take(all.len() as int) =~= all);
        Ok(listing::sort_by_time(kept, true))
    }

    /// The last `limit` jobs, the last that was started first.
    pub fn get_recent_jobs(found: Vec<Result<ScraperJob, String>>, limit: usize) -> (r: Result<
        Vec<ScraperJob>,
        DbError,
    >)
        ensures
            match r {
                Ok(list) => all_readable(found@) && list@ == listing::window(
                    listing::in_time_order(records(found@), true),
                    limit as int,
                    0,
                ),
                Err(error) => !all_readable(found@) && refused(RecordKind::Job, found@, error),
            },
    {
        let jobs = match read_records(RecordKind::Job, found) {
            Ok(jobs) => jobs,
            Err(error) => {
                return Err(error);
            },
        };
        let mut sorted = listing::sort_by_time(jobs, true);
        let ghost all = sorted@;
        if sorted.len() > limit {
            sorted.truncate(limit);
        }
        assert(sorted@ =~= listing::window(all, limit as int, 0));
        Ok(sorted)
    }

    /// All jobs, the last that was started first.
    pub fn get_scraper_jobs(found: Vec<Result<ScraperJob, String>>) -> (r: Result<
        Vec<ScraperJob>,
        DbError,
    >)
        ensures
            match r {
                Ok(list) => all_readable(found@) && list@ == listing::in_time_order(
                    records(found@),
                    true,
                ),
                Err(error) => !all_readable(found@) && refused(RecordKind::Job, found@, error),
            },
    {
        match read_records(RecordKind::Job, found) {
            Ok(jobs) => Ok(listing::sort_by_time(jobs, true)),
            Err(error) => Err(error),
        }
    }

    /// The peers, in the order of their keys.
    pub fn get_peers(found: Vec<Result<Peer, String>>) -> (r: Result<Vec<Peer>, DbError>)
        ensures
            match r {
                Ok(list) => all_readable(found@) && list@ == records(found@),
                Err(error) => !all_readable(found@) && refused(RecordKind::Peer, found@, error),
            },
    {
        read_records(RecordKind::Peer, found)
    }

    /// The settings, and what is written: where none are stored, the initial
    /// ones are.
    pub fn get_system_settings(found: Option<Result<SystemSettings, String>>) -> (r: Result<
        (SystemSettings, Option<Step>),
        DbError,
    >)
        ensures
            match record_found(RecordKind::Settings, found) {
                Ok(Some(stored)) => r == Ok::<(SystemSettings, Option<Step>), DbError>(
                    (stored, None),
                ),
                Ok(None) => r matches Ok((settings, Some(step))) && settings.is_initial() && step@
                    == settings_step(settings),
                Err(error) => r == Err::<(SystemSettings, Option<Step>), DbError>(error),
            },
    {
        match read_record(RecordKind::Settings, found) {
            Ok(Some(settings)) => Ok((settings, None)),
            Ok(None) => {
                let settings = SystemSettings::default();
                let step = Database::update_system_settings(&settings);
                Ok((settings, Some(step)))
            },
            Err(error) => Err(error),
        }
    }

    /// What is written for the settings.
    pub fn update_system_settings(settings: &SystemSettings) -> (r: Step)
        ensures
            r@ == settings_step(*settings),
    {
        Step::Put {
            partition: Partition::Settings,
            key: storage_keys::settings_key(),
            value: Stored::Settings(settings.clone()),
        }
    }

    /// The scraper's configuration, and what is written: where none is stored,
    /// the initial one is.
    pub fn get_scraper_config(found: Option<Result<ScraperConfig, String>>) -> (r: Result<
        (ScraperConfig, Option<Step>),
        DbError,
    >)
        ensures
            match record_found(RecordKind::Config, found) {
                Ok(Some(stored)) => r == Ok::<(ScraperConfig, Option<Step>), DbError>(
                    (stored, None),
                ),
                Ok(None) => r matches Ok((config, Some(step))) && config.is_initial() && step@
                    == config_step(config),
                Err(error) => r == Err::<(ScraperConfig, Option<Step>), DbError>(error),
            },
    {
        match read_record(RecordKind::Config, found) {
            Ok(Some(config)) => Ok((config, None)),
            Ok(None) => {
                let config = ScraperConfig::default();
                let step = Database::update_scraper_config(&config);
                Ok((config, Some(step)))
            },
            Err(error) => Err(error),
        }
    }

    /// What is written for the scraper's configuration.
    pub fn update_scraper_config(config: &ScraperConfig) -> (r: Step)
        ensures
            r@ == config_step(*config),
    {
        Step::Put {
            partition: Partition::ScraperConfig,
            key: storage_keys::scraper_config_key(),
            value: Stored::Config(config.clone()),
        }
    }

    /// What is written for a peer.
    pub fn upsert_peer(peer: &Peer) -> (r: Step)
        ensures
            r@ == peer_step(*peer),
    {
        Step::Put {
            partition: Partition::Peers,
            key: storage_keys::peer_key(peer.id.as_str()),
            value: Stored::Peer(peer.clone()),
        }
    }

    /// What is written for the operation of a log entry that is taken in now,
    /// before its DID is brought up to date. The DID is, unless the entry was
    /// nullified.
    pub fn process_log_entry(entry: &LogEntry, is_new: bool) -> (r: (Vec<Step>, bool))
        ensures
            r.1 == !entry.nullified,
            exists|record: OperationRecord|
                store::step_views(r.0@) == #[trigger] upsert_operation_steps(record, is_new)
                    && record_of_entry(record, *entry, record.id, record.indexed_at)
                    && ident::is_random_id(record.id) && clock::is_clock_time(record.indexed_at),
    {
        Database::process_log_entry_at(entry, is_new, ident::new_id(), clock::utc_now())
    }

    /// What is written for the operation of a log entry that is taken in at
    /// `now`, with that identifier, before its DID is brought up to date.
    pub fn process_log_entry_at(entry: &LogEntry, is_new: bool, id: u128, now: Timestamp) -> (r: (
        Vec<Step>,
        bool,
    ))
        ensures
            r.1 == !entry.nullified,
            exists|record: OperationRecord|
                store::step_views(r.0@) == #[trigger] upsert_operation_steps(record, is_new)
                    && record_of_entry(record, *entry, id, now),
    {
        let operation_record = OperationRecord::new_at(
            id,
            now,
            entry.did.clone(),
            entry.operation.to_json(),
            entry.cid.clone(),
            entry.created_at,
        );
        let ghost written = operation_record;
        let steps = Database::upsert_operation_at(operation_record, is_new, now);
        assert(record_of_entry(written, *entry, id, now));
        assert(written == (OperationRecord { indexed_at: now, ..written }));
        (steps, !entry.nullified)
    }

    /// What an operation that is taken in now makes of the record of its DID,
    /// of what was found for it.
    pub fn update_did_from_operation(
        did: &str,
        operation: &PlcOperation,
        found: Option<Result<DidRecord, String>>,
    ) -> (r: Result<DidRecord, DbError>)
        ensures
            match r {
                Ok(record) => exists|existing: Option<DidRecord>, id: u128, now: Timestamp|
                    did_read(did@, found, Ok(existing)) && ident::is_random_id(id)
                        && clock::is_clock_time(now) && #[trigger] operation_gives(
                        record,
                        did@,
                        *operation,
                        existing,
                        id,
                        now,
                    ),
                Err(error) => did_read(did@, found, Err(error)),
            },
            r is Ok <==> (found matches Some(f) ==> (f matches Ok(stored) && json::parsed(
                stored.document_json_string@,
            ) is Some)),
    {
        let id = ident::new_id();
        let now = clock::utc_now();
        Database::update_did_from_operation_at(did, operation, found, id, now)
    }

    /// What an operation that is taken in at `now` makes of the record of its
    /// DID, of what was found for it; a new record has that identifier.
    pub fn update_did_from_operation_at(
        did: &str,
        operation: &PlcOperation,
        found: Option<Result<DidRecord, String>>,
        id: u128,
        now: Timestamp,
    ) -> (r: Result<DidRecord, DbError>)
        ensures
            match r {
                Ok(record) => exists|existing: Option<DidRecord>|
                    did_read(did@, found, Ok(existing)) && #[trigger] operation_gives(
                        record,
                        did@,
                        *operation,
                        existing,
                        id,
                        now,
                    ),
                Err(error) => did_read(did@, found, Err(error)),
            },
            r is Ok <==> (found matches Some(f) ==> (f matches Ok(stored) && json::parsed(
                stored.document_json_string@,
            ) is Some)),
    {
        let existing = match Database::get_did(did, found) {
            Ok(existing) => existing,
            Err(error) => {
                return Err(error);
            },
        };
        let ghost before = existing;
        if operation.is_tombstone() {
            let base = document::make_base_document(did);
            proof {
                document::law_base_document_reads_back(did@);
            }
            let mut did_record = match existing {
                Some(record) => record,
                None => DidRecord::new_at(id, now, did.to_owned(), base.clone()),
            };
            did_record.tombstone_at(now);
            did_record.document_val = base;
            assert(operation_gives(did_record, did@, *operation, before, id, now));
            Ok(did_record)
        } else {
            let doc = document::make_document(did, operation);
            let mut did_record = match existing {
                Some(record) => record,
                None => DidRecord::new_at(id, now, did.to_owned(), doc.clone()),
            };
            did_record.update_document_at(doc, None, now);
            assert(operation_gives(did_record, did@, *operation, before, id, now));
            Ok(did_record)
        }
    }

    /// The change of the totals when a synchronisation ends now.
    pub fn update_last_sync() -> (r: Step)
        ensures
            r@ matches StepView::Count(StatsChange::Synced(now)) && clock::is_clock_time(now),
    {
        Database::update_last_sync_at(clock::utc_now())
    }

    /// The change of the totals when a synchronisation ends at `now`.
    pub fn update_last_sync_at(now: Timestamp) -> (r: Step)
        ensures
            r@ == StepView::Count(StatsChange::Synced(now)),
    {
        Step::Count(StatsChange::Synced(now))
    }
}

/// The record that an entry of the log gives its operation when it is taken in
/// at `now`, with that identifier.
pub open spec fn record_of_entry(
    record: OperationRecord,
    entry: LogEntry,
    id: u128,
    now: Timestamp,
) -> bool {
    &&& record.operation@ == entry.operation.spec_json()
    &&& record == (OperationRecord {
        id,
        did: entry.did,
        operation: record.operation,
        cid: entry.cid,
        nullified: false,
        created_at: entry.created_at,
        indexed_at: now,
    })
}

/// The record of an operation holds what the entry of the log says of it, every
/// part of the operation included; it is not nullified, and is indexed when it is
/// taken in.
pub proof fn law_entry_is_recorded(
    record: OperationRecord,
    entry: LogEntry,
    id: u128,
    now: Timestamp,
)
    requires
        record_of_entry(record, entry, id, now),
    ensures
        record.id == id,
        record.did == entry.did,
        record.cid == entry.cid,
        record.created_at == entry.created_at,
        record.indexed_at == now,
        !record.nullified,
        record.operation@ == entry.operation.spec_json(),
        json::field(record.operation@, "type"@) == Some(
            JsonView::Text(entry.operation.op_type@),
        ),
        json::field(record.operation@, "sig"@) == Some(JsonView::Text(entry.operation.sig@)),
        match entry.operation.services {
            Some(services) => json::field(record.operation@, "services"@) == Some(services@),
            None => json::field(record.operation@, "services"@) is None,
        },
{
    models::law_operation_part_by_part(entry.operation, Seq::empty());
}

/// Of two operations of a DID that are listed the one that was taken in earlier
/// stands first; those that were found and are not nullified are listed, however
/// many they are, and no others.
pub proof fn law_operations_of_a_did(
    found: Seq<Option<OperationRecord>>,
    i: int,
    j: int,
    operation: OperationRecord,
)
    ensures
        0 <= i < j < valid_operations(found).len() ==> !valid_operations(found)[j].indexed_at.before(
            valid_operations(found)[i].indexed_at,
        ),
        valid_operations(found).contains(operation) <==> found.contains(Some(operation))
            && !operation.nullified,
        valid_operations(found).len() == listing::present(found).filter(
            |o: OperationRecord| !o.nullified,
        ).len(),
{
    broadcast use vstd::seq_lib::group_to_multiset_ensures;

    let valid = |o: OperationRecord| !o.nullified;
    let all = listing::present(found);
    let kept = all.filter(valid);
    let list = valid_operations(found);
    listing::law_time_order(kept, false);
    listing::law_what_time_lists_follow(kept, Seq::empty(), i, j, operation.indexed_at);
    listing::law_present_are_those_found(found, operation);
    assert(list.contains(operation) <==> kept.contains(operation)) by {
        assert(list.to_multiset().count(operation) == kept.to_multiset().count(operation));
    }
    assert(kept.contains(operation) <==> all.contains(operation) && valid(operation)) by {
        if kept.contains(operation) {
            let k = choose|k: int| 0 <= k < kept.len() && kept[k] == operation;
            all.lemma_filter_pred(valid, k);
            all.lemma_filter_contains_rev(valid, operation);
        }
        if all.contains(operation) && valid(operation) {
            let k = choose|k: int| 0 <= k < all.len() && all[k] == operation;
            all.lemma_filter_contains(valid, k);
        }
    }
}

/// The operations of a DID are listed in the order in which they were taken in:
/// those that are not nullified, all of them, and no others.
pub proof fn law_valid_operations(found: Seq<Option<OperationRecord>>)
    ensures
        listing::time_ordered(valid_operations(found), false),
        valid_operations(found).to_multiset() == listing::present(found).filter(
            |o: OperationRecord| !o.nullified,
        ).to_multiset(),
        forall|i: int|
            0 <= i < valid_operations(found).len() ==> !(#[trigger] valid_operations(found)[i]).nullified,
{
    let valid = |o: OperationRecord| !o.nullified;
    let kept = listing::present(found).filter(valid);
    listing::law_time_order(kept, false);
    lemma_listed_are_kept(found);
}

proof fn lemma_listed_are_kept(found: Seq<Option<OperationRecord>>)
    ensures
        forall|i: int|
            0 <= i < valid_operations(found).len() ==> !(#[trigger] valid_operations(found)[i]).nullified,
{
    broadcast use vstd::seq_lib::group_to_multiset_ensures;

    let valid = |o: OperationRecord| !o.nullified;
    let all = listing::present(found);
    let kept = all.filter(valid);
    let list = valid_operations(found);
    listing::law_time_order(kept, false);
    assert forall|i: int| 0 <= i < list.len() implies !(#[trigger] list[i]).nullified by {
        assert(list.contains(list[i]));
        assert(list.to_multiset().count(list[i]) > 0);
        assert(kept.to_multiset().count(list[i]) > 0);
        let k = choose|k: int| 0 <= k < kept.len() && kept[k] == list[i];
        all.lemma_filter_pred(valid, k);
    }
}

} // verus!
