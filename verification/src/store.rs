//! What is written to the store: its partitions, the values it keeps, and the
//! steps in which it changes.

use vstd::prelude::*;
use crate::clock::Timestamp;
use crate::models::{
    DidRecord, OperationRecord, Peer, ScraperConfig, ScraperJob, Stats, SystemSettings,
};
use crate::storage_keys;

verus! {

/// The partitions of the store.
#[derive(Clone, Copy, Debug, PartialEq, Eq, Structural)]
pub enum Partition {
    Dids,
    Operations,
    Jobs,
    Stats,
    Settings,
    ScraperConfig,
    Peers,
    DidIndex,
    OperationIndex,
    OperationByDid,
}

impl Partition {
    /// The name under which the partition is opened.
    pub open spec fn spec_name(self) -> Seq<char> {
        match self {
            Partition::Dids => "dids"@,
            Partition::Operations => "operations"@,
            Partition::Jobs => "jobs"@,
            Partition::Stats => "stats"@,
            Partition::Settings => "settings"@,
            Partition::ScraperConfig => "scraper_config"@,
            Partition::Peers => "peers"@,
            Partition::DidIndex => "did_index"@,
            Partition::OperationIndex => "operation_index"@,
            Partition::OperationByDid => "operation_by_did"@,
        }
    }

    /// The name under which the partition is opened.
    pub fn name(self) -> (r: &'static str)
        ensures
            r@ == self.spec_name(),
    {
        match self {
            Partition::Dids => "dids",
            Partition::Operations => "operations",
            Partition::Jobs => "jobs",
            Partition::Stats => "stats",
            Partition::Settings => "settings",
            Partition::ScraperConfig => "scraper_config",
            Partition::Peers => "peers",
            Partition::DidIndex => "did_index",
            Partition::OperationIndex => "operation_index",
            Partition::OperationByDid => "operation_by_did",
        }
    }

    /// All partitions, in the order in which they are opened.
    pub open spec fn spec_all() -> Seq<Partition> {
        seq![
            Partition::Dids,
            Partition::Operations,
            Partition::Jobs,
            Partition::Stats,
            Partition::Settings,
            Partition::ScraperConfig,
            Partition::Peers,
            Partition::DidIndex,
            Partition::OperationIndex,
            Partition::OperationByDid,
        ]
    }

    /// All partitions, in the order in which they are opened.
    pub fn all() -> (r: Vec<Partition>)
        ensures
            r@ == Partition::spec_all(),
    {
        let mut r: Vec<Partition> = Vec::new();
        r.push(Partition::Dids);
        r.push(Partition::Operations);
        r.push(Partition::Jobs);
        r.push(Partition::Stats);
        r.push(Partition::Settings);
        r.push(Partition::ScraperConfig);
        r.push(Partition::Peers);
        r.push(Partition::DidIndex);
        r.push(Partition::OperationIndex);
        r.push(Partition::OperationByDid);
        assert(r@ =~= Partition::spec_all());
        r
    }

    /// Where the partition stands among all of them.
    pub open spec fn place(self) -> int {
        match self {
            Partition::Dids => 0,
            Partition::Operations => 1,
            Partition::Jobs => 2,
            Partition::Stats => 3,
            Partition::Settings => 4,
            Partition::ScraperConfig => 5,
            Partition::Peers => 6,
            Partition::DidIndex => 7,
            Partition::OperationIndex => 8,
            Partition::OperationByDid => 9,
        }
    }
}

/// Every partition is opened once: it stands at its place among them, and
/// nowhere else.
pub proof fn law_every_partition_is_opened(partition: Partition, at: int)
    ensures
        0 <= partition.place() < Partition::spec_all().len(),
        Partition::spec_all()[partition.place()] == partition,
        0 <= at < Partition::spec_all().len() && Partition::spec_all()[at] == partition ==> at
            == partition.place(),
{
}

/// No two partitions are opened under the same name.
pub proof fn law_partition_names_differ(a: Partition, b: Partition)
    requires
        a != b,
    ensures
        a.spec_name() != b.spec_name(),
{
    reveal_strlit("dids");
    reveal_strlit("operations");
    reveal_strlit("jobs");
    reveal_strlit("stats");
    reveal_strlit("settings");
    reveal_strlit("scraper_config");
    reveal_strlit("peers");
    reveal_strlit("did_index");
    reveal_strlit("operation_index");
    reveal_strlit("operation_by_did");
    let x = a.spec_name();
    let y = b.spec_name();
    if x == y {
        assert(x.len() == y.len());
        assert(x[0] == y[0]);
        assert(x[4] == y[4]);
    }
}

/// A value that the store keeps.
#[derive(Debug)]
pub enum Stored {
    Did(DidRecord),
    Operation(OperationRecord),
    Job(ScraperJob),
    Stats(Stats),
    Settings(SystemSettings),
    Config(ScraperConfig),
    Peer(Peer),
    /// The name of a record that stands elsewhere.
    Reference(String),
}

/// How the totals change.
#[derive(Clone, Copy, Debug, PartialEq, Eq, Structural)]
pub enum StatsChange {
    DidAdded,
    OperationAdded,
    Synced(Timestamp),
}

/// One change of the store.
#[derive(Debug)]
pub enum Step {
    /// A value is put under a key, in place of what stood there.
    Put { partition: Partition, key: Vec<u8>, value: Stored },
    /// The totals change.
    Count(StatsChange),
}

/// What a step does.
pub enum StepView {
    Put { partition: Partition, key: Seq<u8>, value: Stored },
    Count(StatsChange),
}

impl Step {
    /// What this step does.
    pub open spec fn view(&self) -> StepView {
        match self {
            Step::Put { partition, key, value } => StepView::Put {
                partition: *partition,
                key: key@,
                value: *value,
            },
            Step::Count(change) => StepView::Count(*change),
        }
    }
}

/// What the steps do.
pub open spec fn step_views(steps: Seq<Step>) -> Seq<StepView> {
    steps.map_values(|s: Step| s@)
}

/// A step does what it says: it puts its value under its key in its partition, or
/// makes its change of the totals; and steps do so one for one, in their order.
pub proof fn law_steps_do_what_they_say(
    partition: Partition,
    key: Vec<u8>,
    value: Stored,
    change: StatsChange,
    steps: Seq<Step>,
    i: int,
)
    ensures
        (Step::Put { partition, key, value })@ == (StepView::Put { partition, key: key@, value }),
        Step::Count(change)@ == StepView::Count(change),
        step_views(steps).len() == steps.len(),
        0 <= i < steps.len() ==> step_views(steps)[i] == steps[i]@,
{
}

/// The totals that a change starts from: those that are stored, or those of an
/// empty mirror.
pub open spec fn starts_from(stored: Option<Stats>, base: Stats) -> bool {
    match stored {
        Some(s) => base == s,
        None => base.is_initial(),
    }
}

/// The totals after a change.
pub open spec fn changed(base: Stats, change: StatsChange) -> Stats {
    match change {
        StatsChange::DidAdded => Stats { total_dids: (base.total_dids + 1) as i64, ..base },
        StatsChange::OperationAdded => Stats {
            total_operations: (base.total_operations + 1) as i64,
            ..base
        },
        StatsChange::Synced(at) => Stats { last_sync: Some(at), ..base },
    }
}

/// The total that a change raises has room for one more.
pub open spec fn has_room(base: Stats, change: StatsChange) -> bool {
    match change {
        StatsChange::DidAdded => base.total_dids < i64::MAX,
        StatsChange::OperationAdded => base.total_operations < i64::MAX,
        StatsChange::Synced(_) => true,
    }
}

/// A change has room if and only if the total that it raises is not the largest
/// number that it can hold; the end of a synchronisation always has.
pub proof fn law_room_for_one_more(base: Stats, change: StatsChange)
    ensures
        has_room(base, StatsChange::DidAdded) <==> base.total_dids + 1 <= i64::MAX,
        has_room(base, StatsChange::OperationAdded) <==> base.total_operations + 1 <= i64::MAX,
        change is Synced ==> has_room(base, change),
{
}

/// `after` is what a change makes of the totals that are stored.
pub open spec fn counts(stored: Option<Stats>, change: StatsChange, after: Stats) -> bool {
    exists|base: Stats| #[trigger] starts_from(stored, base) && after == changed(base, change)
}

/// A change raises the total that it is about by one, or says when the last
/// synchronisation ended, and leaves the rest of the totals; where none are
/// stored, it starts from those of an empty mirror.
pub proof fn law_totals_change(stored: Option<Stats>, change: StatsChange, after: Stats)
    requires
        counts(stored, change, after),
        stored matches Some(base) ==> has_room(base, change),
    ensures
        ({
            let dids = match stored {
                Some(base) => base.total_dids as int,
                None => 0,
            };
            let operations = match stored {
                Some(base) => base.total_operations as int,
                None => 0,
            };
            let last_sync = match stored {
                Some(base) => base.last_sync,
                None => None,
            };
            &&& after.total_dids == dids + if change is DidAdded {
                1int
            } else {
                0
            }
            &&& after.total_operations == operations + if change is OperationAdded {
                1int
            } else {
                0
            }
            &&& match change {
                StatsChange::Synced(at) => after.last_sync == Some(at),
                _ => after.last_sync == last_sync,
            }
            &&& match stored {
                Some(base) => after.average_ops_per_did == base.average_ops_per_did,
                None => after.average_ops_per_did@ == "0.00"@,
            }
        }),
{
}

/// The key of the totals.
pub open spec fn stats_cell() -> (Partition, Seq<u8>) {
    (Partition::Stats, storage_keys::key("stats"@))
}

/// The totals that stand in the store.
pub open spec fn stats_in(cells: Map<(Partition, Seq<u8>), Stored>) -> Option<Stats> {
    if cells.contains_key(stats_cell()) {
        match cells[stats_cell()] {
            Stored::Stats(s) => Some(s),
            _ => None,
        }
    } else {
        None
    }
}

/// `after` is what the store holds when the step was done on `before`.
pub open spec fn step_done(
    before: Map<(Partition, Seq<u8>), Stored>,
    step: StepView,
    after: Map<(Partition, Seq<u8>), Stored>,
) -> bool {
    match step {
        StepView::Put { partition, key, value } => after == before.insert((partition, key), value),
        StepView::Count(change) => exists|stats: Stats|
            #[trigger] counts(stats_in(before), change, stats) && after == before.insert(
                stats_cell(),
                Stored::Stats(stats),
            ),
    }
}

/// A step that puts a value leaves it under its key and everything else where it
/// was; one that changes the totals leaves them under their key, and everything
/// else where it was.
pub proof fn law_step_changes_one_cell(
    before: Map<(Partition, Seq<u8>), Stored>,
    step: StepView,
    after: Map<(Partition, Seq<u8>), Stored>,
    other: (Partition, Seq<u8>),
)
    requires
        step_done(before, step, after),
    ensures
        step matches StepView::Put { partition, key, value } ==> {
            &&& after.contains_key((partition, key)) && after[(partition, key)] == value
            &&& other != (partition, key) ==> after.contains_key(other) == before.contains_key(
                other,
            ) && after[other] == before[other]
        },
        step matches StepView::Count(change) ==> {
            let cell = (Partition::Stats, storage_keys::key("stats"@));
            &&& after.contains_key(cell) && (after[cell] matches Stored::Stats(stats) && counts(
                stats_in(before),
                change,
                stats,
            ))
            &&& other != cell ==> after.contains_key(other) == before.contains_key(other)
                && after[other] == before[other]
        },
        stats_in(before) matches Some(stats) ==> before.contains_key(
            (Partition::Stats, storage_keys::key("stats"@)),
        ) && before[(Partition::Stats, storage_keys::key("stats"@))] == Stored::Stats(stats),
{
}

/// The store went through `states` while the steps were done on `before`.
pub open spec fn went_through(
    states: Seq<Map<(Partition, Seq<u8>), Stored>>,
    before: Map<(Partition, Seq<u8>), Stored>,
    steps: Seq<StepView>,
    after: Map<(Partition, Seq<u8>), Stored>,
) -> bool {
    &&& states.len() == steps.len() + 1
    &&& states[0] == before
    &&& states.last() == after
    &&& forall|i: int|
        0 <= i < steps.len() ==> step_done(#[trigger] states[i], steps[i], states[i + 1])
}

/// `after` is what the store holds when the steps were done on `before`, one
/// after the other.
pub open spec fn steps_done(
    before: Map<(Partition, Seq<u8>), Stored>,
    steps: Seq<StepView>,
    after: Map<(Partition, Seq<u8>), Stored>,
) -> bool {
    exists|states: Seq<Map<(Partition, Seq<u8>), Stored>>|
        went_through(states, before, steps, after)
}

/// The store before the last step.
pub proof fn lemma_steps_then(
    before: Map<(Partition, Seq<u8>), Stored>,
    steps: Seq<StepView>,
    step: StepView,
    after: Map<(Partition, Seq<u8>), Stored>,
) -> (middle: Map<(Partition, Seq<u8>), Stored>)
    requires
        steps_done(before, steps.push(step), after),
    ensures
        steps_done(before, steps, middle),
        step_done(middle, step, after),
{
    let all = steps.push(step);
    let states = choose|states: Seq<Map<(Partition, Seq<u8>), Stored>>|
        went_through(states, before, all, after);
    let n = steps.len() as int;
    assert(step_done(states[n], all[n], states[n + 1]));
    assert(went_through(states.drop_last(), before, steps, states[n])) by {
        assert forall|i: int| 0 <= i < steps.len() implies step_done(
            #[trigger] states.drop_last()[i],
            steps[i],
            states.drop_last()[i + 1],
        ) by {
            assert(step_done(states[i], all[i], states[i + 1]));
        }
    }
    states[n]
}

/// Where no step was done, the store is as it was.
pub proof fn lemma_no_steps(
    before: Map<(Partition, Seq<u8>), Stored>,
    after: Map<(Partition, Seq<u8>), Stored>,
)
    requires
        steps_done(before, Seq::<StepView>::empty(), after),
    ensures
        after == before,
{
}

} // verus!
