//! The records that the mirror keeps, and what the directory sends.

use vstd::prelude::*;
use crate::ident;
use crate::json;
use crate::json::{Json, JsonObject, JsonView};
use crate::text;
use crate::clock;
use crate::clock::Timestamp;

verus! {

/// What the mirror knows of a DID.
#[derive(Debug, Clone)]
pub struct DidRecord {
    pub id: u128,
    pub did: String,
    /// The document as it is stored.
    pub document_json_string: String,
    /// The document as a value; it is not stored.
    pub document_val: Json,
    pub last_operation_cid: Option<String>,
    pub created_at: Timestamp,
    pub updated_at: Timestamp,
    pub is_tombstoned: bool,
}

impl DidRecord {
    /// A record made at `now` for a DID that the mirror did not know.
    pub open spec fn fresh(self, id: u128, now: Timestamp, did: String, document: Json) -> bool {
        &&& self.id == id
        &&& self.did == did
        &&& self.document_json_string@ == json::text_or_empty(document@)
        &&& json::reads_back(document@) ==> json::parsed(self.document_json_string@) == Some(
            document@,
        )
        &&& self.document_val == document
        &&& self.last_operation_cid is None
        &&& self.created_at == now
        &&& self.updated_at == now
        &&& !self.is_tombstoned
    }

    /// This is `before` after `document` was put in place of its document.
    pub open spec fn redocumented(
        self,
        before: DidRecord,
        now: Timestamp,
        document: Json,
        operation_cid: Option<String>,
    ) -> bool {
        &&& self.id == before.id
        &&& self.did == before.did
        &&& self.document_json_string@ == json::text_or_empty(document@)
        &&& json::reads_back(document@) ==> json::parsed(self.document_json_string@) == Some(
            document@,
        )
        &&& self.document_val == document
        &&& self.last_operation_cid == operation_cid
        &&& self.created_at == before.created_at
        &&& self.updated_at == now
        &&& !self.is_tombstoned
    }

    /// The record of `did` with that document, made now.
    pub fn new(did: String, document: Json) -> (r: DidRecord)
        ensures
            r.fresh(r.id, r.created_at, did, document),
            ident::is_random_id(r.id),
            clock::is_clock_time(r.created_at),
    {
        DidRecord::new_at(ident::new_id(), clock::utc_now(), did, document)
    }

    /// The record of `did` with that document and identifier, made at `now`.
    pub fn new_at(id: u128, now: Timestamp, did: String, document: Json) -> (r: DidRecord)
        ensures
            r.fresh(id, now, did, document),
    {
        let document_json_string = document.to_text();
        DidRecord {
            id,
            did,
            document_json_string,
            document_val: document,
            last_operation_cid: None,
            created_at: now,
            updated_at: now,
            is_tombstoned: false,
        }
    }

    /// Marks the DID as gone.
    pub fn tombstone(&mut self)
        ensures
            *final(self) == (DidRecord {
                is_tombstoned: true,
                updated_at: final(self).updated_at,
                ..*old(self)
            }),
            clock::is_clock_time(final(self).updated_at),
    {
        self.tombstone_at(clock::utc_now());
    }

    /// Marks the DID as gone since `now`.
    pub fn tombstone_at(&mut self, now: Timestamp)
        ensures
            *final(self) == (DidRecord { is_tombstoned: true, updated_at: now, ..*old(self) }),
    {
        self.is_tombstoned = true;
        self.updated_at = now;
    }

    /// Puts `document` in place of the document; the DID is no longer gone.
    pub fn update_document(&mut self, document: Json, operation_cid: Option<String>)
        ensures
            final(self).redocumented(*old(self), final(self).updated_at, document, operation_cid),
            clock::is_clock_time(final(self).updated_at),
    {
        self.update_document_at(document, operation_cid, clock::utc_now());
    }

    /// Puts `document` in place of the document at `now`.
    pub fn update_document_at(
        &mut self,
        document: Json,
        operation_cid: Option<String>,
        now: Timestamp,
    )
        ensures
            final(self).redocumented(*old(self), now, document, operation_cid),
    {
        let document_json_string = document.to_text();
        self.document_val = document;
        self.document_json_string = document_json_string;
        self.last_operation_cid = operation_cid;
        self.updated_at = now;
        self.is_tombstoned = false;
    }
}

/// A record that was just made holds what it was made of, is as old as its last
/// change, follows no operation and is not gone.
pub proof fn law_fresh_record(
    record: DidRecord,
    id: u128,
    now: Timestamp,
    did: String,
    document: Json,
)
    requires
        record.fresh(id, now, did, document),
    ensures
        record.id == id,
        record.did == did,
        record.document_val == document,
        record.document_json_string@ == json::text_or_empty(document@),
        json::reads_back(document@) ==> json::parsed(record.document_json_string@) == Some(
            document@,
        ),
        record.last_operation_cid is None,
        record.created_at == now,
        record.updated_at == now,
        !record.is_tombstoned,
{
}

/// A record that was given a document holds that, changed then, and is not gone,
/// whatever it was before; it keeps its identifier, its DID and when it was made.
/// Of two documents that it was given, one after the other, nothing is left of the
/// first.
pub proof fn law_record_holds_its_document(
    before: DidRecord,
    now: Timestamp,
    document: Json,
    cid: Option<String>,
    after: DidRecord,
    later: Timestamp,
    other: Json,
    other_cid: Option<String>,
    last: DidRecord,
)
    requires
        after.redocumented(before, now, document, cid),
        last.redocumented(after, later, other, other_cid),
    ensures
        after.id == before.id,
        after.did == before.did,
        after.created_at == before.created_at,
        after.document_val == document,
        after.document_json_string@ == json::text_or_empty(document@),
        json::reads_back(document@) ==> json::parsed(after.document_json_string@) == Some(
            document@,
        ),
        after.last_operation_cid == cid,
        after.updated_at == now,
        !after.is_tombstoned,
        last.redocumented(before, later, other, other_cid),
{
}

/// An operation of the directory's log.
#[derive(Debug, Clone)]
pub struct OperationRecord {
    pub id: u128,
    pub did: String,
    pub operation: Json,
    pub cid: String,
    pub nullified: bool,
    pub created_at: Timestamp,
    pub indexed_at: Timestamp,
}

impl OperationRecord {
    /// The record of an operation, made now.
    pub fn new(did: String, operation: Json, cid: String, created_at: Timestamp) -> (r:
        OperationRecord)
        ensures
            ident::is_random_id(r.id),
            clock::is_clock_time(r.indexed_at),
            r == (OperationRecord {
                id: r.id,
                did,
                operation,
                cid,
                nullified: false,
                created_at,
                indexed_at: r.indexed_at,
            }),
    {
        OperationRecord::new_at(
            ident::new_id(),
            clock::utc_now(),
            did,
            operation,
            cid,
            created_at,
        )
    }

    /// The record of an operation with that identifier, made at `now`.
    pub fn new_at(
        id: u128,
        now: Timestamp,
        did: String,
        operation: Json,
        cid: String,
        created_at: Timestamp,
    ) -> (r: OperationRecord)
        ensures
            r == (OperationRecord {
                id,
                did,
                operation,
                cid,
                nullified: false,
                created_at,
                indexed_at: now,
            }),
    {
        OperationRecord { id, did, operation, cid, nullified: false, created_at, indexed_at: now }
    }

    /// Marks the operation as nullified.
    pub fn nullify(&mut self)
        ensures
            *final(self) == (OperationRecord {
                nullified: true,
                indexed_at: final(self).indexed_at,
                ..*old(self)
            }),
            clock::is_clock_time(final(self).indexed_at),
    {
        self.nullify_at(clock::utc_now());
    }

    /// Marks the operation as nullified at `now`.
    pub fn nullify_at(&mut self, now: Timestamp)
        ensures
            *final(self) == (OperationRecord { nullified: true, indexed_at: now, ..*old(self) }),
    {
        self.nullified = true;
        self.indexed_at = now;
    }
}

/// A run of the scraper.
#[derive(Debug)]
pub struct ScraperJob {
    pub id: u128,
    pub job_type: String,
    pub status: String,
    pub started_at: Timestamp,
    pub completed_at: Option<Timestamp>,
    pub error_message: Option<String>,
    pub records_processed: i64,
    pub last_cursor: Option<String>,
}

/// A copy of a text that may be missing.
fn copy_text(text: &Option<String>) -> (r: Option<String>)
    ensures
        r == *text,
{
    match text {
        Some(t) => Some(t.clone()),
        None => None,
    }
}

impl Clone for ScraperJob {
    fn clone(&self) -> (r: Self)
        ensures
            r == *self,
    {
        ScraperJob {
            id: self.id,
            job_type: self.job_type.clone(),
            status: self.status.clone(),
            started_at: self.started_at,
            completed_at: self.completed_at,
            error_message: copy_text(&self.error_message),
            records_processed: self.records_processed,
            last_cursor: copy_text(&self.last_cursor),
        }
    }
}

impl ScraperJob {
    /// This is a job with that identifier that was made at `now` and waits to
    /// be started.
    pub open spec fn fresh(self, id: u128, now: Timestamp, job_type: String) -> bool {
        &&& self.status@ == "pending"@
        &&& self == (ScraperJob {
            id,
            job_type,
            status: self.status,
            started_at: now,
            completed_at: None,
            error_message: None,
            records_processed: 0,
            last_cursor: None,
        })
    }

    /// This is `before` after it was started at `now`.
    pub open spec fn started(self, before: ScraperJob, now: Timestamp) -> bool {
        &&& self.status@ == "running"@
        &&& self == (ScraperJob { status: self.status, started_at: now, ..before })
    }

    /// This is `before` after it ended well at `now`.
    pub open spec fn completed(self, before: ScraperJob, now: Timestamp) -> bool {
        &&& self.status@ == "completed"@
        &&& self == (ScraperJob { status: self.status, completed_at: Some(now), ..before })
    }

    /// This is `before` after it ended with that error at `now`.
    pub open spec fn failed(self, before: ScraperJob, now: Timestamp, error: Seq<char>) -> bool {
        &&& self.status@ == "failed"@
        &&& self.error_message matches Some(text) && text@ == error
        &&& self == (ScraperJob {
            status: self.status,
            completed_at: Some(now),
            error_message: self.error_message,
            ..before
        })
    }

    /// A job that waits to be started.
    pub fn new(job_type: String) -> (r: ScraperJob)
        ensures
            ident::is_random_id(r.id),
            clock::is_clock_time(r.started_at),
            r.fresh(r.id, r.started_at, job_type),
    {
        ScraperJob::new_at(ident::new_id(), clock::utc_now(), job_type)
    }

    /// A job with that identifier, made at `now`, that waits to be started.
    pub fn new_at(id: u128, now: Timestamp, job_type: String) -> (r: ScraperJob)
        ensures
            r.fresh(id, now, job_type),
    {
        ScraperJob {
            id,
            job_type,
            status: "pending".to_owned(),
            started_at: now,
            completed_at: None,
            error_message: None,
            records_processed: 0,
            last_cursor: None,
        }
    }

    /// The job runs from now on.
    pub fn start(&mut self)
        ensures
            final(self).started(*old(self), final(self).started_at),
            clock::is_clock_time(final(self).started_at),
    {
        self.start_at(clock::utc_now());
    }

    /// The job runs from `now` on.
    pub fn start_at(&mut self, now: Timestamp)
        ensures
            final(self).started(*old(self), now),
    {
        self.status = "running".to_owned();
        self.started_at = now;
    }

    /// The job ended well.
    pub fn complete(&mut self)
        ensures
            final(self).completed_at matches Some(now) && clock::is_clock_time(now)
                && final(self).completed(*old(self), now),
    {
        self.complete_at(clock::utc_now());
    }

    /// The job ended well at `now`.
    pub fn complete_at(&mut self, now: Timestamp)
        ensures
            final(self).completed(*old(self), now),
    {
        self.status = "completed".to_owned();
        self.completed_at = Some(now);
    }

    /// The job ended with an error.
    pub fn fail(&mut self, error: String)
        ensures
            final(self).completed_at matches Some(now) && clock::is_clock_time(now)
                && final(self).failed(*old(self), now, error@),
    {
        self.fail_at(error, clock::utc_now());
    }

    /// The job ended with an error at `now`.
    pub fn fail_at(&mut self, error: String, now: Timestamp)
        ensures
            final(self).failed(*old(self), now, error@),
    {
        self.status = "failed".to_owned();
        self.completed_at = Some(now);
        self.error_message = Some(error);
    }

    /// How far the job has come.
    pub fn update_progress(&mut self, records_processed: i64, cursor: Option<String>)
        ensures
            *final(self) == (ScraperJob { records_processed, last_cursor: cursor, ..*old(self) }),
    {
        self.records_processed = records_processed;
        self.last_cursor = cursor;
    }
}

/// A job waits when it is made, runs when it is started, and has ended when it is
/// completed or has failed, whatever it was before. It keeps its identifier, what
/// it is for and its progress from one state to the next; only a failure leaves a
/// message.
pub proof fn law_job_states(
    made: ScraperJob,
    id: u128,
    at: Timestamp,
    job_type: String,
    running: ScraperJob,
    start: Timestamp,
    working: ScraperJob,
    done: ScraperJob,
    failed: ScraperJob,
    end: Timestamp,
    error: Seq<char>,
)
    requires
        made.fresh(id, at, job_type),
        running.started(working, start),
        done.completed(working, end),
        failed.failed(working, end, error),
    ensures
        made.id == id && made.job_type == job_type && made.status@ == "pending"@,
        made.started_at == at && made.completed_at is None && made.error_message is None,
        made.records_processed == 0 && made.last_cursor is None,
        running.id == working.id && running.job_type == working.job_type,
        running.status@ == "running"@ && running.started_at == start,
        running.completed_at == working.completed_at,
        running.error_message == working.error_message,
        running.records_processed == working.records_processed,
        running.last_cursor == working.last_cursor,
        done.id == working.id && done.job_type == working.job_type,
        done.status@ == "completed"@ && done.completed_at == Some(end),
        done.started_at == working.started_at && done.error_message == working.error_message,
        done.records_processed == working.records_processed,
        done.last_cursor == working.last_cursor,
        failed.id == working.id && failed.job_type == working.job_type,
        failed.status@ == "failed"@ && failed.completed_at == Some(end),
        failed.error_message matches Some(text) && text@ == error,
        failed.started_at == working.started_at,
        failed.records_processed == working.records_processed,
        failed.last_cursor == working.last_cursor,
{
}

/// An operation as the directory sends it.
#[derive(Debug)]
pub struct PlcOperation {
    pub op_type: String,
    pub rotation_keys: Option<Vec<String>>,
    pub verification_methods: Option<Json>,
    pub also_known_as: Option<Vec<String>>,
    pub services: Option<Json>,
    pub prev: Option<String>,
    pub sig: String,
    pub signing_key: Option<String>,
    pub recovery_key: Option<String>,
    pub handle: Option<String>,
    pub service: Option<String>,
}

/// The text as a JSON value, if there is one.
pub open spec fn optional_text(text: Option<String>) -> Option<JsonView> {
    match text {
        Some(t) => Some(JsonView::Text(t@)),
        None => None,
    }
}

/// The texts as a JSON array.
pub open spec fn text_array(texts: Seq<String>) -> JsonView {
    JsonView::Array(texts.map_values(|t: String| JsonView::Text(t@)))
}

/// The texts as a JSON array, if there are any.
pub open spec fn optional_array(texts: Option<Vec<String>>) -> Option<JsonView> {
    match texts {
        Some(ts) => Some(text_array(ts@)),
        None => None,
    }
}

/// What the JSON value holds, if there is one.
pub open spec fn optional_json(value: Option<Json>) -> Option<JsonView> {
    match value {
        Some(v) => Some(v@),
        None => None,
    }
}

/// The members with `name` set, where there is a value for it.
pub open spec fn with_optional(
    members: Seq<(Seq<char>, JsonView)>,
    name: Seq<char>,
    value: Option<JsonView>,
) -> Seq<(Seq<char>, JsonView)> {
    match value {
        Some(v) => json::with_member(members, name, v),
        None => members,
    }
}

/// The texts as a JSON array.
pub fn array_of_texts(texts: &Vec<String>) -> (r: Json)
    ensures
        r@ == text_array(texts@),
{
    let mut out: Vec<Json> = Vec::new();
    let mut i: usize = 0;
    while i < texts.len()
        invariant
            i <= texts@.len(),
            out@.len() == i,
            forall|j: int| 0 <= j < i ==> (#[trigger] out@[j])@ == JsonView::Text(texts@[j]@),
        decreases texts@.len() - i,
    {
        out.push(Json::text(texts[i].as_str()));
        i = i + 1;
    }
    let r = Json::Array(out);
    assert(r@->Array_0 =~= text_array(texts@)->Array_0);
    r
}

/// The object with `name` set, where there is a text for it.
fn with_text(object: JsonObject, name: &str, value: &Option<String>) -> (r: JsonObject)
    ensures
        r@ == with_optional(object@, name@, optional_text(*value)),
{
    match value {
        Some(t) => object.with(name, Json::text(t.as_str())),
        None => object,
    }
}

/// The object with `name` set, where there are texts for it.
fn with_texts(object: JsonObject, name: &str, value: &Option<Vec<String>>) -> (r: JsonObject)
    ensures
        r@ == with_optional(object@, name@, optional_array(*value)),
{
    match value {
        Some(ts) => object.with(name, array_of_texts(ts)),
        None => object,
    }
}

/// The object with `name` set, where there is a value for it.
fn with_json(object: JsonObject, name: &str, value: &Option<Json>) -> (r: JsonObject)
    ensures
        r@ == with_optional(object@, name@, optional_json(*value)),
{
    match value {
        Some(v) => object.with(name, v.clone()),
        None => object,
    }
}

impl PlcOperation {
    /// Whether the operation takes a DID out of use.
    pub fn is_tombstone(&self) -> (r: bool)
        ensures
            r == (self.op_type@ == "plc_tombstone"@),
    {
        text::str_eq(self.op_type.as_str(), "plc_tombstone")
    }

    /// Whether the operation creates a DID in the old form.
    pub fn is_legacy_create(&self) -> (r: bool)
        ensures
            r == (self.op_type@ == "create"@),
    {
        text::str_eq(self.op_type.as_str(), "create")
    }

    /// Whether the operation creates or changes a DID.
    pub fn is_plc_operation(&self) -> (r: bool)
        ensures
            r == (self.op_type@ == "plc_operation"@),
    {
        text::str_eq(self.op_type.as_str(), "plc_operation")
    }

    /// The operation as the directory writes it: a member for each part, none
    /// for a part that is missing, except that `prev` is then null.
    pub open spec fn spec_json(self) -> JsonView {
        let none = Seq::<(Seq<char>, JsonView)>::empty();
        let a = json::with_member(none, "type"@, JsonView::Text(self.op_type@));
        let b = with_optional(a, "rotationKeys"@, optional_array(self.rotation_keys));
        let c = with_optional(b, "verificationMethods"@, optional_json(self.verification_methods));
        let d = with_optional(c, "alsoKnownAs"@, optional_array(self.also_known_as));
        let e = with_optional(d, "services"@, optional_json(self.services));
        let f = json::with_member(
            e,
            "prev"@,
            match self.prev {
                Some(p) => JsonView::Text(p@),
                None => JsonView::Null,
            },
        );
        let g = json::with_member(f, "sig"@, JsonView::Text(self.sig@));
        let h = with_optional(g, "signingKey"@, optional_text(self.signing_key));
        let i = with_optional(h, "recoveryKey"@, optional_text(self.recovery_key));
        let j = with_optional(i, "handle"@, optional_text(self.handle));
        let k = with_optional(j, "service"@, optional_text(self.service));
        JsonView::Object(k)
    }

    /// The operation as the directory writes it.
    pub fn to_json(&self) -> (r: Json)
        ensures
            r@ == self.spec_json(),
    {
        let a = JsonObject::new().with("type", Json::text(self.op_type.as_str()));
        let b = with_texts(a, "rotationKeys", &self.rotation_keys);
        let c = with_json(b, "verificationMethods", &self.verification_methods);
        let d = with_texts(c, "alsoKnownAs", &self.also_known_as);
        let e = with_json(d, "services", &self.services);
        let prev = match &self.prev {
            Some(p) => Json::text(p.as_str()),
            None => Json::Null,
        };
        let f = e.with("prev", prev);
        let g = f.with("sig", Json::text(self.sig.as_str()));
        let h = with_text(g, "signingKey", &self.signing_key);
        let i = with_text(h, "recoveryKey", &self.recovery_key);
        let j = with_text(i, "handle", &self.handle);
        let k = with_text(j, "service", &self.service);
        Json::Object(k)
    }
}

/// The names of the parts of an operation are all different.
proof fn part_names_differ()
    ensures
        ({
            let names = part_names();
            forall|i: int, j: int|
                0 <= i < j < names.len() ==> #[trigger] names[i] != #[trigger] names[j]
        }),
{
    reveal_strlit("type");
    reveal_strlit("rotationKeys");
    reveal_strlit("verificationMethods");
    reveal_strlit("alsoKnownAs");
    reveal_strlit("services");
    reveal_strlit("prev");
    reveal_strlit("sig");
    reveal_strlit("signingKey");
    reveal_strlit("recoveryKey");
    reveal_strlit("handle");
    reveal_strlit("service");
    let names = part_names();
    assert forall|i: int, j: int| 0 <= i < j < names.len() implies #[trigger] names[i]
        != #[trigger] names[j] by {
        if names[i] == names[j] {
            assert(names[i].len() == names[j].len());
            assert(names[i][0] == names[j][0]);
        }
    }
}

/// The names of the parts of an operation.
spec fn part_names() -> Seq<Seq<char>> {
    seq![
        "type"@,
        "rotationKeys"@,
        "verificationMethods"@,
        "alsoKnownAs"@,
        "services"@,
        "prev"@,
        "sig"@,
        "signingKey"@,
        "recoveryKey"@,
        "handle"@,
        "service"@,
    ]
}

/// Every part of an operation is read back from what is written of it, whatever
/// the other parts are: a part that is there as its own member, a part that is
/// missing as none, but for the operation before this one, which is then null.
/// Nothing else is written.
pub proof fn law_operation_part_by_part(operation: PlcOperation, other: Seq<char>)
    ensures
        ({
            let json = operation.spec_json();
            &&& json::field(json, "type"@) == Some(JsonView::Text(operation.op_type@))
            &&& match operation.rotation_keys {
                Some(keys) => {
                    &&& json::field(json, "rotationKeys"@) matches Some(JsonView::Array(items))
                    &&& items.len() == keys@.len()
                    &&& forall|i: int|
                        0 <= i < items.len() ==> (#[trigger] items[i]) == JsonView::Text(keys@[i]@)
                },
                None => json::field(json, "rotationKeys"@) is None,
            }
            &&& match operation.verification_methods {
                Some(methods) => json::field(json, "verificationMethods"@) == Some(methods@),
                None => json::field(json, "verificationMethods"@) is None,
            }
            &&& match operation.also_known_as {
                Some(names) => {
                    &&& json::field(json, "alsoKnownAs"@) matches Some(JsonView::Array(items))
                    &&& items.len() == names@.len()
                    &&& forall|i: int|
                        0 <= i < items.len() ==> (#[trigger] items[i]) == JsonView::Text(names@[i]@)
                },
                None => json::field(json, "alsoKnownAs"@) is None,
            }
            &&& match operation.services {
                Some(services) => json::field(json, "services"@) == Some(services@),
                None => json::field(json, "services"@) is None,
            }
            &&& match operation.prev {
                Some(prev) => json::field(json, "prev"@) == Some(JsonView::Text(prev@)),
                None => json::field(json, "prev"@) == Some(JsonView::Null),
            }
            &&& json::field(json, "sig"@) == Some(JsonView::Text(operation.sig@))
            &&& match operation.signing_key {
                Some(key) => json::field(json, "signingKey"@) == Some(JsonView::Text(key@)),
                None => json::field(json, "signingKey"@) is None,
            }
            &&& match operation.recovery_key {
                Some(key) => json::field(json, "recoveryKey"@) == Some(JsonView::Text(key@)),
                None => json::field(json, "recoveryKey"@) is None,
            }
            &&& match operation.handle {
                Some(name) => json::field(json, "handle"@) == Some(JsonView::Text(name@)),
                None => json::field(json, "handle"@) is None,
            }
            &&& match operation.service {
                Some(service) => json::field(json, "service"@) == Some(JsonView::Text(service@)),
                None => json::field(json, "service"@) is None,
            }
            &&& other != "type"@ && other != "rotationKeys"@ && other != "verificationMethods"@
                && other != "alsoKnownAs"@ && other != "services"@ && other != "prev"@ && other
                != "sig"@ && other != "signingKey"@ && other != "recoveryKey"@ && other
                != "handle"@ && other != "service"@ ==> json::field(json, other) is None
        }),
{
    part_names_differ();
    let names = part_names();
    assert(names[0] == "type"@ && names[1] == "rotationKeys"@ && names[2]
        == "verificationMethods"@ && names[3] == "alsoKnownAs"@ && names[4] == "services"@
        && names[5] == "prev"@ && names[6] == "sig"@ && names[7] == "signingKey"@ && names[8]
        == "recoveryKey"@ && names[9] == "handle"@ && names[10] == "service"@);
    assert forall|
        members: Seq<(Seq<char>, JsonView)>,
        name: Seq<char>,
        value: JsonView,
        looked_for: Seq<char>,
    | #[trigger] json::member(json::with_member(members, name, value), looked_for) == if looked_for
        == name {
        Some(value)
    } else {
        json::member(members, looked_for)
    } by {
        json::law_member_reads_back(members, name, value, looked_for);
    }
    assert forall|name: Seq<char>| #[trigger] json::member(
        Seq::<(Seq<char>, JsonView)>::empty(),
        name,
    ) is None by {}
}

/// An entry of the directory's export.
#[derive(Debug)]
pub struct LogEntry {
    pub did: String,
    pub operation: PlcOperation,
    pub cid: String,
    pub nullified: bool,
    pub created_at: Timestamp,
}

/// What is asked of the directory's export.
#[derive(Debug)]
pub struct ExportQuery {
    pub count: Option<usize>,
    pub after: Option<Timestamp>,
}

impl Default for ExportQuery {
    fn default() -> (r: ExportQuery)
        ensures
            r == (ExportQuery { count: Some(1000), after: None }),
    {
        ExportQuery { count: Some(1000), after: None }
    }
}

/// The totals that the dashboard shows.
#[derive(Debug, Clone)]
pub struct Stats {
    pub total_dids: i64,
    pub total_operations: i64,
    pub last_sync: Option<Timestamp>,
    pub average_ops_per_did: String,
}

impl Stats {
    /// The totals of an empty mirror.
    pub open spec fn is_initial(self) -> bool {
        &&& self.total_dids == 0
        &&& self.total_operations == 0
        &&& self.last_sync is None
        &&& self.average_ops_per_did@ == "0.00"@
    }
}

impl Default for Stats {
    fn default() -> (r: Stats)
        ensures
            r.is_initial(),
            r.total_dids == 0,
            r.total_operations == 0,
            r.last_sync is None,
            r.average_ops_per_did@ == "0.00"@,
    {
        Stats {
            total_dids: 0,
            total_operations: 0,
            last_sync: None,
            average_ops_per_did: "0.00".to_owned(),
        }
    }
}

/// Another mirror.
#[derive(Debug)]
pub struct Peer {
    pub id: String,
    pub address: String,
    pub last_heard: Timestamp,
    pub latency_ms: u32,
}

impl Clone for Peer {
    fn clone(&self) -> (r: Self)
        ensures
            r == *self,
    {
        Peer {
            id: self.id.clone(),
            address: self.address.clone(),
            last_heard: self.last_heard,
            latency_ms: self.latency_ms,
        }
    }
}

impl Peer {
    /// A peer that was heard just now.
    pub fn new(id: String, address: String, latency_ms: u32) -> (r: Peer)
        ensures
            r == (Peer { id, address, last_heard: r.last_heard, latency_ms }),
            clock::is_clock_time(r.last_heard),
    {
        Peer::new_at(clock::utc_now(), id, address, latency_ms)
    }

    /// A peer that was heard at `now`.
    pub fn new_at(now: Timestamp, id: String, address: String, latency_ms: u32) -> (r: Peer)
        ensures
            r == (Peer { id, address, last_heard: now, latency_ms }),
    {
        Peer { id, address, last_heard: now, latency_ms }
    }
}

/// The settings of the mirror.
#[derive(Debug)]
pub struct SystemSettings {
    pub plc_directory_url: String,
    pub bluesky_pds_url: String,
    pub storage_type: String,
    pub sqlite_db_path: String,
    pub enable_email_notifications: bool,
    pub notification_email_address: Option<String>,
}

impl Clone for SystemSettings {
    fn clone(&self) -> (r: Self)
        ensures
            r == *self,
    {
        SystemSettings {
            plc_directory_url: self.plc_directory_url.clone(),
            bluesky_pds_url: self.bluesky_pds_url.clone(),
            storage_type: self.storage_type.clone(),
            sqlite_db_path: self.sqlite_db_path.clone(),
            enable_email_notifications: self.enable_email_notifications,
            notification_email_address: copy_text(&self.notification_email_address),
        }
    }
}

impl SystemSettings {
    /// Nothing is set.
    pub open spec fn is_initial(self) -> bool {
        &&& self.plc_directory_url@ == Seq::<char>::empty()
        &&& self.bluesky_pds_url@ == Seq::<char>::empty()
        &&& self.storage_type@ == Seq::<char>::empty()
        &&& self.sqlite_db_path@ == Seq::<char>::empty()
        &&& !self.enable_email_notifications
        &&& self.notification_email_address is None
    }
}

impl Default for SystemSettings {
    fn default() -> (r: SystemSettings)
        ensures
            r.is_initial(),
            r.plc_directory_url@.len() == 0,
            r.bluesky_pds_url@.len() == 0,
            r.storage_type@.len() == 0,
            r.sqlite_db_path@.len() == 0,
            !r.enable_email_notifications,
            r.notification_email_address is None,
    {
        SystemSettings {
            plc_directory_url: String::new(),
            bluesky_pds_url: String::new(),
            storage_type: String::new(),
            sqlite_db_path: String::new(),
            enable_email_notifications: false,
            notification_email_address: None,
        }
    }
}

/// Initial settings name nothing and switch nothing on; nor does an initial
/// configuration of the scraper.
pub proof fn law_nothing_is_set_initially(settings: SystemSettings, config: ScraperConfig)
    ensures
        settings.is_initial() ==> {
            &&& settings.plc_directory_url@.len() == 0
            &&& settings.bluesky_pds_url@.len() == 0
            &&& settings.storage_type@.len() == 0
            &&& settings.sqlite_db_path@.len() == 0
            &&& !settings.enable_email_notifications
            &&& settings.notification_email_address is None
        },
        config.is_initial() ==> {
            &&& config.scraper_mode@.len() == 0
            &&& config.run_frequency@.len() == 0
            &&& !config.scraper_enabled
        },
{
}

/// How the scraper is run.
#[derive(Debug)]
pub struct ScraperConfig {
    pub scraper_mode: String,
    pub run_frequency: String,
    pub scraper_enabled: bool,
}

impl Clone for ScraperConfig {
    fn clone(&self) -> (r: Self)
        ensures
            r == *self,
    {
        ScraperConfig {
            scraper_mode: self.scraper_mode.clone(),
            run_frequency: self.run_frequency.clone(),
            scraper_enabled: self.scraper_enabled,
        }
    }
}

impl ScraperConfig {
    /// Nothing is set.
    pub open spec fn is_initial(self) -> bool {
        &&& self.scraper_mode@ == Seq::<char>::empty()
        &&& self.run_frequency@ == Seq::<char>::empty()
        &&& !self.scraper_enabled
    }
}

impl Default for ScraperConfig {
    fn default() -> (r: ScraperConfig)
        ensures
            r.is_initial(),
            r.scraper_mode@.len() == 0,
            r.run_frequency@.len() == 0,
            !r.scraper_enabled,
    {
        ScraperConfig {
            scraper_mode: String::new(),
            run_frequency: String::new(),
            scraper_enabled: false,
        }
    }
}

} // verus!
