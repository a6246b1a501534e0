//! What the store holds after it was written: what is read back of a record,
//! what stays as it was, and what is counted.

use vstd::prelude::*;
use crate::clock::Timestamp;
use crate::database;
use crate::models::{
    DidRecord, OperationRecord, Peer, ScraperConfig, ScraperJob, SystemSettings,
};
use crate::storage_keys;
use crate::store;
use crate::store::{Partition, StatsChange, StepView, Stored};

verus! {

/// What the store keeps of the record of a DID: all of it but the value of the
/// document, which is read from its text.
pub struct KeptDid {
    pub id: u128,
    pub did: String,
    pub document_json_string: String,
    pub last_operation_cid: Option<String>,
    pub created_at: Timestamp,
    pub updated_at: Timestamp,
    pub is_tombstoned: bool,
}

/// What the store keeps of the record.
pub open spec fn kept(record: DidRecord) -> KeptDid {
    KeptDid {
        id: record.id,
        did: record.did,
        document_json_string: record.document_json_string,
        last_operation_cid: record.last_operation_cid,
        created_at: record.created_at,
        updated_at: record.updated_at,
        is_tombstoned: record.is_tombstoned,
    }
}

/// What the store keeps of a DID.
pub open spec fn did_in(cells: Map<(Partition, Seq<u8>), Stored>, did: Seq<char>) -> Option<
    KeptDid,
> {
    let cell = (Partition::Dids, storage_keys::spec_did_key(did));
    if cells.contains_key(cell) {
        match cells[cell] {
            Stored::Did(record) => Some(kept(record)),
            _ => None,
        }
    } else {
        None
    }
}

/// Two records of which the same is kept differ in nothing but the value of the
/// document; and what is kept of a DID is what stands under its key.
pub proof fn law_what_is_kept(
    a: DidRecord,
    b: DidRecord,
    cells: Map<(Partition, Seq<u8>), Stored>,
    did: Seq<char>,
)
    ensures
        kept(a) == kept(b) <==> a == (DidRecord { document_val: a.document_val, ..b }),
        did_in(cells, did) == Some(kept(a)) <==> (cells.contains_key(
            (Partition::Dids, storage_keys::spec_did_key(did)),
        ) && (cells[(Partition::Dids, storage_keys::spec_did_key(did))] matches Stored::Did(stands)
            && a == (DidRecord { document_val: a.document_val, ..stands }))),
{
}

/// The operation that stands in the store.
pub open spec fn operation_in(cells: Map<(Partition, Seq<u8>), Stored>, cid: Seq<char>) -> Option<
    OperationRecord,
> {
    let cell = (Partition::Operations, storage_keys::spec_operation_key(cid));
    if cells.contains_key(cell) {
        match cells[cell] {
            Stored::Operation(record) => Some(record),
            _ => None,
        }
    } else {
        None
    }
}

/// The partitions other than `changed` hold what they held.
pub open spec fn only_changes(
    before: Map<(Partition, Seq<u8>), Stored>,
    after: Map<(Partition, Seq<u8>), Stored>,
    changed: Set<Partition>,
) -> bool {
    forall|partition: Partition, key: Seq<u8>|
        #![trigger after.contains_key((partition, key))]
        #![trigger after[(partition, key)]]
        !changed.contains(partition) ==> {
            &&& after.contains_key((partition, key)) == before.contains_key((partition, key))
            &&& after[(partition, key)] == before[(partition, key)]
        }
}

/// Where only some partitions changed, every cell of another holds what it held.
pub proof fn law_others_are_untouched(
    before: Map<(Partition, Seq<u8>), Stored>,
    after: Map<(Partition, Seq<u8>), Stored>,
    changed: Set<Partition>,
    partition: Partition,
    key: Seq<u8>,
)
    requires
        only_changes(before, after, changed),
        !changed.contains(partition),
    ensures
        after.contains_key((partition, key)) <==> before.contains_key((partition, key)),
        after[(partition, key)] == before[(partition, key)],
{
}

/// What the steps for a DID do to the store, one insertion after the other.
proof fn lemma_upsert_did_cells(
    before: Map<(Partition, Seq<u8>), Stored>,
    record: DidRecord,
    is_new: bool,
    after: Map<(Partition, Seq<u8>), Stored>,
)
    requires
        store::steps_done(before, database::upsert_did_steps(record, is_new), after),
    ensures
        ({
            let written = before.insert(
                (Partition::Dids, storage_keys::spec_did_key(record.did@)),
                Stored::Did(record),
            ).insert(
                (
                    Partition::DidIndex,
                    storage_keys::spec_did_index_key(record.updated_at.spec_millis(), record.did@),
                ),
                Stored::Reference(record.did),
            );
            if is_new && !record.is_tombstoned {
                store::step_done(written, StepView::Count(StatsChange::DidAdded), after)
            } else {
                after == written
            }
        }),
{
    let none = Seq::<StepView>::empty();
    let first = StepView::Put {
        partition: Partition::Dids,
        key: storage_keys::spec_did_key(record.did@),
        value: Stored::Did(record),
    };
    let second = StepView::Put {
        partition: Partition::DidIndex,
        key: storage_keys::spec_did_index_key(record.updated_at.spec_millis(), record.did@),
        value: Stored::Reference(record.did),
    };
    let both = none.push(first).push(second);
    let written = if is_new && !record.is_tombstoned {
        assert(database::upsert_did_steps(record, is_new) =~= both.push(
            StepView::Count(StatsChange::DidAdded),
        ));
        store::lemma_steps_then(before, both, StepView::Count(StatsChange::DidAdded), after)
    } else {
        assert(database::upsert_did_steps(record, is_new) =~= both);
        after
    };
    let one = store::lemma_steps_then(before, none.push(first), second, written);
    let zero = store::lemma_steps_then(before, none, first, one);
    store::lemma_no_steps(before, zero);
}

/// Of a DID that was written, all that is kept is read back, and it is found in
/// the index; no other DID changes, no other entry of the index, and nothing else
/// does but the totals: one more DID is counted exactly when it is new and not
/// gone.
pub proof fn law_did_reads_back(
    before: Map<(Partition, Seq<u8>), Stored>,
    record: DidRecord,
    is_new: bool,
    after: Map<(Partition, Seq<u8>), Stored>,
)
    requires
        store::steps_done(before, database::upsert_did_steps(record, is_new), after),
    ensures
        did_in(after, record.did@) == Some(kept(record)),
        forall|did: Seq<char>|
            did != record.did@ ==> #[trigger] did_in(after, did) == did_in(before, did),
        after.contains_pair(
            (
                Partition::DidIndex,
                storage_keys::spec_did_index_key(record.updated_at.spec_millis(), record.did@),
            ),
            Stored::Reference(record.did),
        ),
        forall|key: Seq<u8>|
            #![trigger after.contains_key((Partition::DidIndex, key))]
            #![trigger after[(Partition::DidIndex, key)]]
            key != storage_keys::spec_did_index_key(record.updated_at.spec_millis(), record.did@)
                ==> after.contains_key((Partition::DidIndex, key)) == before.contains_key(
                (Partition::DidIndex, key),
            ) && after[(Partition::DidIndex, key)] == before[(Partition::DidIndex, key)],
        only_changes(
            before,
            after,
            set![Partition::Dids, Partition::DidIndex, Partition::Stats],
        ),
        if is_new && !record.is_tombstoned {
            store::stats_in(after) matches Some(stats) && store::counts(
                store::stats_in(before),
                StatsChange::DidAdded,
                stats,
            )
        } else {
            store::stats_in(after) == store::stats_in(before)
        },
{
    lemma_upsert_did_cells(before, record, is_new, after);
    assert forall|did: Seq<char>| did != record.did@ implies #[trigger] did_in(after, did)
        == did_in(before, did) by {
        storage_keys::law_text_keys_differ(did, record.did@);
    }
}

/// What the steps for an operation do to the store, one insertion after the
/// other.
proof fn lemma_upsert_operation_cells(
    before: Map<(Partition, Seq<u8>), Stored>,
    record: OperationRecord,
    is_new: bool,
    after: Map<(Partition, Seq<u8>), Stored>,
)
    requires
        store::steps_done(before, database::upsert_operation_steps(record, is_new), after),
    ensures
        ({
            let millis = record.indexed_at.spec_millis();
            let written = before.insert(
                (Partition::Operations, storage_keys::spec_operation_key(record.cid@)),
                Stored::Operation(record),
            ).insert(
                (
                    Partition::OperationIndex,
                    storage_keys::spec_operation_index_key(millis, record.cid@),
                ),
                Stored::Reference(record.cid),
            ).insert(
                (
                    Partition::OperationByDid,
                    storage_keys::spec_operation_by_did_key(record.did@, millis),
                ),
                Stored::Reference(record.cid),
            );
            if is_new {
                store::step_done(written, StepView::Count(StatsChange::OperationAdded), after)
            } else {
                after == written
            }
        }),
{
    let none = Seq::<StepView>::empty();
    let millis = record.indexed_at.spec_millis();
    let first = StepView::Put {
        partition: Partition::Operations,
        key: storage_keys::spec_operation_key(record.cid@),
        value: Stored::Operation(record),
    };
    let second = StepView::Put {
        partition: Partition::OperationIndex,
        key: storage_keys::spec_operation_index_key(millis, record.cid@),
        value: Stored::Reference(record.cid),
    };
    let third = StepView::Put {
        partition: Partition::OperationByDid,
        key: storage_keys::spec_operation_by_did_key(record.did@, millis),
        value: Stored::Reference(record.cid),
    };
    let all = none.push(first).push(second).push(third);
    let count = StepView::Count(StatsChange::OperationAdded);
    let written = if is_new {
        assert(database::upsert_operation_steps(record, is_new) =~= all.push(count));
        store::lemma_steps_then(before, all, count, after)
    } else {
        assert(database::upsert_operation_steps(record, is_new) =~= all);
        after
    };
    let two = store::lemma_steps_then(before, none.push(first).push(second), third, written);
    let one = store::lemma_steps_then(before, none.push(first), second, two);
    let zero = store::lemma_steps_then(before, none, first, one);
    store::lemma_no_steps(before, zero);
}

/// An operation that was written is read back, and is found in the index of
/// the operations and in that of its DID; no other operation changes, no other
/// entry of these, and nothing else does but the totals: one more operation is
/// counted exactly when it is new.
pub proof fn law_operation_reads_back(
    before: Map<(Partition, Seq<u8>), Stored>,
    record: OperationRecord,
    is_new: bool,
    after: Map<(Partition, Seq<u8>), Stored>,
)
    requires
        store::steps_done(before, database::upsert_operation_steps(record, is_new), after),
    ensures
        operation_in(after, record.cid@) == Some(record),
        forall|cid: Seq<char>|
            cid != record.cid@ ==> #[trigger] operation_in(after, cid) == operation_in(before, cid),
        after.contains_pair(
            (
                Partition::OperationIndex,
                storage_keys::spec_operation_index_key(
                    record.indexed_at.spec_millis(),
                    record.cid@,
                ),
            ),
            Stored::Reference(record.cid),
        ),
        after.contains_pair(
            (
                Partition::OperationByDid,
                storage_keys::spec_operation_by_did_key(
                    record.did@,
                    record.indexed_at.spec_millis(),
                ),
            ),
            Stored::Reference(record.cid),
        ),
        forall|key: Seq<u8>|
            #![trigger after.contains_key((Partition::OperationIndex, key))]
            #![trigger after[(Partition::OperationIndex, key)]]
            key != storage_keys::spec_operation_index_key(
                record.indexed_at.spec_millis(),
                record.cid@,
            ) ==> after.contains_key((Partition::OperationIndex, key)) == before.contains_key(
                (Partition::OperationIndex, key),
            ) && after[(Partition::OperationIndex, key)] == before[(
                Partition::OperationIndex,
                key,
            )],
        forall|key: Seq<u8>|
            #![trigger after.contains_key((Partition::OperationByDid, key))]
            #![trigger after[(Partition::OperationByDid, key)]]
            key != storage_keys::spec_operation_by_did_key(
                record.did@,
                record.indexed_at.spec_millis(),
            ) ==> after.contains_key((Partition::OperationByDid, key)) == before.contains_key(
                (Partition::OperationByDid, key),
            ) && after[(Partition::OperationByDid, key)] == before[(
                Partition::OperationByDid,
                key,
            )],
        only_changes(
            before,
            after,
            set![
                Partition::Operations,
                Partition::OperationIndex,
                Partition::OperationByDid,
                Partition::Stats,
            ],
        ),
        if is_new {
            store::stats_in(after) matches Some(stats) && store::counts(
                store::stats_in(before),
                StatsChange::OperationAdded,
                stats,
            )
        } else {
            store::stats_in(after) == store::stats_in(before)
        },
{
    lemma_upsert_operation_cells(before, record, is_new, after);
    assert forall|cid: Seq<char>| cid != record.cid@ implies #[trigger] operation_in(after, cid)
        == operation_in(before, cid) by {
        storage_keys::law_text_keys_differ(cid, record.cid@);
    }
}

/// A job that was written is read back, and no other job changes.
pub proof fn law_job_reads_back(
    before: Map<(Partition, Seq<u8>), Stored>,
    job: ScraperJob,
    after: Map<(Partition, Seq<u8>), Stored>,
    other: u128,
)
    requires
        store::step_done(before, database::job_step(job), after),
    ensures
        after.contains_pair((Partition::Jobs, storage_keys::spec_job_key(job.id)), Stored::Job(job)),
        other != job.id ==> ({
            let cell = (Partition::Jobs, storage_keys::spec_job_key(other));
            after.contains_key(cell) == before.contains_key(cell) && after[cell] == before[cell]
        }),
        only_changes(before, after, set![Partition::Jobs]),
{
    if other != job.id {
        storage_keys::law_job_keys_differ(other, job.id);
    }
}

/// Settings, the scraper's configuration and peers that were written are read
/// back; writing one of these leaves the others, and all other peers.
pub proof fn law_settings_read_back(
    before: Map<(Partition, Seq<u8>), Stored>,
    settings: SystemSettings,
    config: ScraperConfig,
    peer: Peer,
    after: Map<(Partition, Seq<u8>), Stored>,
    other: Seq<char>,
)
    ensures
        store::step_done(before, database::settings_step(settings), after) ==> {
            &&& after.contains_pair(
                (Partition::Settings, storage_keys::key("system_settings"@)),
                Stored::Settings(settings),
            )
            &&& only_changes(before, after, set![Partition::Settings])
        },
        store::step_done(before, database::config_step(config), after) ==> {
            &&& after.contains_pair(
                (Partition::ScraperConfig, storage_keys::key("scraper_config"@)),
                Stored::Config(config),
            )
            &&& only_changes(before, after, set![Partition::ScraperConfig])
        },
        store::step_done(before, database::peer_step(peer), after) ==> {
            &&& after.contains_pair(
                (Partition::Peers, storage_keys::spec_peer_key(peer.id@)),
                Stored::Peer(peer),
            )
            &&& other != peer.id@ ==> ({
                let cell = (Partition::Peers, storage_keys::spec_peer_key(other));
                after.contains_key(cell) == before.contains_key(cell) && after[cell] == before[cell]
            })
            &&& only_changes(before, after, set![Partition::Peers])
        },
{
    if other != peer.id@ {
        storage_keys::law_text_keys_differ(other, peer.id@);
    }
}

/// Every record of a DID stands under the key of its DID.
pub open spec fn dids_filed(cells: Map<(Partition, Seq<u8>), Stored>) -> bool {
    forall|key: Seq<u8>| #[trigger]
        cells.contains_key((Partition::Dids, key)) ==> (cells[(Partition::Dids, key)] matches
            Stored::Did(record) && key == storage_keys::spec_did_key(record.did@))
}

/// Every record of a DID is found in the index under the time of its last
/// change.
pub open spec fn dids_indexed(cells: Map<(Partition, Seq<u8>), Stored>) -> bool {
    forall|key: Seq<u8>| #[trigger]
        cells.contains_key((Partition::Dids, key)) ==> (cells[(Partition::Dids, key)] matches
            Stored::Did(record) && names_did(cells, record))
}

/// The index names the DID under the time of its last change.
pub open spec fn names_did(cells: Map<(Partition, Seq<u8>), Stored>, record: DidRecord) -> bool {
    let cell = (
        Partition::DidIndex,
        storage_keys::spec_did_index_key(record.updated_at.spec_millis(), record.did@),
    );
    cells.contains_key(cell) && (cells[cell] matches Stored::Reference(name) && name@
        == record.did@)
}

/// Writing a DID keeps every record under the key of its DID, and in the
/// index.
pub proof fn law_dids_stay_filed(
    before: Map<(Partition, Seq<u8>), Stored>,
    record: DidRecord,
    is_new: bool,
    after: Map<(Partition, Seq<u8>), Stored>,
)
    requires
        store::steps_done(before, database::upsert_did_steps(record, is_new), after),
    ensures
        dids_filed(before) ==> dids_filed(after),
        dids_indexed(before) ==> dids_indexed(after),
{
    lemma_upsert_did_cells(before, record, is_new, after);
    if dids_indexed(before) {
        assert forall|key: Seq<u8>| #[trigger]
            after.contains_key((Partition::Dids, key)) implies (after[(Partition::Dids, key)] matches
            Stored::Did(r) && names_did(after, r)) by {
            if key != storage_keys::spec_did_key(record.did@) {
                assert(before.contains_key((Partition::Dids, key)));
                let other = before[(Partition::Dids, key)]->Did_0;
                let a = other.updated_at.spec_millis();
                let b = record.updated_at.spec_millis();
                if storage_keys::spec_did_index_key(a, other.did@)
                    == storage_keys::spec_did_index_key(b, record.did@) {
                    storage_keys::law_index_names_one(a, other.did@, b, record.did@);
                }
            }
        }
    }
}

/// The keys of a partition.
pub open spec fn keys_in(
    cells: Map<(Partition, Seq<u8>), Stored>,
    partition: Partition,
) -> Set<(Partition, Seq<u8>)> {
    cells.dom().filter(|cell: (Partition, Seq<u8>)| cell.0 == partition)
}

/// As many operations are counted as there are.
pub open spec fn operations_counted(cells: Map<(Partition, Seq<u8>), Stored>) -> bool {
    &&& keys_in(cells, Partition::Operations).finite()
    &&& match store::stats_in(cells) {
        Some(stats) => stats.total_operations == keys_in(cells, Partition::Operations).len(),
        None => keys_in(cells, Partition::Operations).len() == 0,
    }
}

/// No more DIDs are counted than there are.
pub open spec fn dids_bounded(cells: Map<(Partition, Seq<u8>), Stored>) -> bool {
    &&& keys_in(cells, Partition::Dids).finite()
    &&& store::stats_in(cells) matches Some(stats) ==> 0 <= stats.total_dids <= keys_in(
        cells,
        Partition::Dids,
    ).len()
}

/// An operation is counted when it is written first, so that as many are
/// counted as there are.
pub proof fn law_operations_stay_counted(
    before: Map<(Partition, Seq<u8>), Stored>,
    record: OperationRecord,
    after: Map<(Partition, Seq<u8>), Stored>,
)
    requires
        operations_counted(before),
        store::stats_in(before) matches Some(stats) ==> store::has_room(
            stats,
            StatsChange::OperationAdded,
        ),
        ({
            let cell = (Partition::Operations, storage_keys::spec_operation_key(record.cid@));
            store::steps_done(
                before,
                database::upsert_operation_steps(record, !before.contains_key(cell)),
                after,
            )
        }),
    ensures
        operations_counted(after),
        dids_bounded(before) ==> dids_bounded(after),
{
    let cell = (Partition::Operations, storage_keys::spec_operation_key(record.cid@));
    let is_new = !before.contains_key(cell);
    lemma_upsert_operation_cells(before, record, is_new, after);
    let had = keys_in(before, Partition::Operations);
    let has = keys_in(after, Partition::Operations);
    assert(keys_in(after, Partition::Dids) =~= keys_in(before, Partition::Dids));
    if is_new {
        assert(has =~= had.insert(cell));
    } else {
        assert(has =~= had);
    }
}

/// A DID is counted at most once, when it is written first, so that no more
/// are counted than there are.
pub proof fn law_dids_stay_bounded(
    before: Map<(Partition, Seq<u8>), Stored>,
    record: DidRecord,
    after: Map<(Partition, Seq<u8>), Stored>,
)
    requires
        dids_bounded(before),
        store::stats_in(before) matches Some(stats) ==> store::has_room(
            stats,
            StatsChange::DidAdded,
        ),
        ({
            let cell = (Partition::Dids, storage_keys::spec_did_key(record.did@));
            store::steps_done(before, database::upsert_did_steps(record, !before.contains_key(cell)), after)
        }),
    ensures
        dids_bounded(after),
        operations_counted(before) ==> operations_counted(after),
{
    let cell = (Partition::Dids, storage_keys::spec_did_key(record.did@));
    let is_new = !before.contains_key(cell);
    lemma_upsert_did_cells(before, record, is_new, after);
    let had = keys_in(before, Partition::Dids);
    let has = keys_in(after, Partition::Dids);
    assert(keys_in(after, Partition::Operations) =~= keys_in(before, Partition::Operations));
    if is_new {
        assert(has =~= had.insert(cell));
    } else {
        assert(has =~= had);
    }
}

/// The end of a synchronisation is kept in the totals; what they count, and
/// what else the store holds, stays as it was.
pub proof fn law_sync_is_kept(
    before: Map<(Partition, Seq<u8>), Stored>,
    at: Timestamp,
    after: Map<(Partition, Seq<u8>), Stored>,
)
    requires
        store::step_done(before, StepView::Count(StatsChange::Synced(at)), after),
    ensures
        store::stats_in(after) matches Some(stats) && stats.last_sync == Some(at),
        only_changes(before, after, set![Partition::Stats]),
        operations_counted(before) ==> operations_counted(after),
        dids_bounded(before) ==> dids_bounded(after),
{
    assert(keys_in(after, Partition::Dids) =~= keys_in(before, Partition::Dids));
    assert(keys_in(after, Partition::Operations) =~= keys_in(before, Partition::Operations));
}

} // verus!
