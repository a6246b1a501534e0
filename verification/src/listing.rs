//! Lists of records: in the order of time, page by page, and by search.

use vstd::prelude::*;
use crate::clock::Timestamp;
use crate::document;
use crate::json;
use crate::json::{Json, JsonView};
use crate::models::{DidRecord, OperationRecord, ScraperJob};
use crate::text;

verus! {

/// A record that is listed by a time.
pub trait Timed: Sized {
    /// The time by which the record is listed.
    spec fn spec_time(self) -> Timestamp;

    /// The time by which the record is listed.
    fn time(&self) -> (r: Timestamp)
        ensures
            r == self.spec_time(),
    ;
}

impl Timed for OperationRecord {
    open spec fn spec_time(self) -> Timestamp {
        self.indexed_at
    }

    fn time(&self) -> (r: Timestamp) {
        self.indexed_at
    }
}

impl Timed for ScraperJob {
    open spec fn spec_time(self) -> Timestamp {
        self.started_at
    }

    fn time(&self) -> (r: Timestamp) {
        self.started_at
    }
}

/// Whether `a` is listed before `b`: the earlier first, or the later first.
pub open spec fn goes_first<T: Timed>(a: T, b: T, latest_first: bool) -> bool {
    if latest_first {
        b.spec_time().before(a.spec_time())
    } else {
        a.spec_time().before(b.spec_time())
    }
}

/// The list with `item` put in its place: behind all but those at the end that
/// it goes before.
pub open spec fn placed<T: Timed>(list: Seq<T>, item: T, latest_first: bool) -> Seq<T>
    decreases list.len(),
{
    if list.len() == 0 || !goes_first(item, list.last(), latest_first) {
        list.push(item)
    } else {
        placed(list.drop_last(), item, latest_first).push(list.last())
    }
}

/// The items in the order of time; those of the same time stay in the order in
/// which they came.
pub open spec fn in_time_order<T: Timed>(items: Seq<T>, latest_first: bool) -> Seq<T>
    decreases items.len(),
{
    if items.len() == 0 {
        items
    } else {
        placed(in_time_order(items.drop_last(), latest_first), items.last(), latest_first)
    }
}

/// Nothing in the list should go before what stands before it.
pub open spec fn time_ordered<T: Timed>(list: Seq<T>, latest_first: bool) -> bool {
    forall|i: int, j: int|
        0 <= i < j < list.len() ==> !goes_first(
            #[trigger] list[j],
            #[trigger] list[i],
            latest_first,
        )
}

proof fn lemma_placed<T: Timed>(list: Seq<T>, item: T, latest_first: bool)
    requires
        time_ordered(list, latest_first),
    ensures
        time_ordered(placed(list, item, latest_first), latest_first),
        placed(list, item, latest_first).to_multiset() == list.to_multiset().insert(item),
        placed(list, item, latest_first).len() == list.len() + 1,
    decreases list.len(),
{
    broadcast use vstd::seq_lib::group_to_multiset_ensures;

    let after = placed(list, item, latest_first);
    if list.len() == 0 || !goes_first(item, list.last(), latest_first) {
        assert forall|i: int, j: int| 0 <= i < j < after.len() implies !goes_first(
            #[trigger] after[j],
            #[trigger] after[i],
            latest_first,
        ) by {
            if j == list.len() && i < list.len() - 1 {
                assert(!goes_first(list.last(), list[i], latest_first));
            }
        }
    } else {
        let front = list.drop_last();
        assert(time_ordered(front, latest_first)) by {
            assert forall|i: int, j: int| 0 <= i < j < front.len() implies !goes_first(
                #[trigger] front[j],
                #[trigger] front[i],
                latest_first,
            ) by {
                assert(front[i] == list[i] && front[j] == list[j]);
            }
        }
        lemma_placed(front, item, latest_first);
        let head = placed(front, item, latest_first);
        lemma_placed_members(front, item, latest_first);
        assert forall|i: int, j: int| 0 <= i < j < after.len() implies !goes_first(
            #[trigger] after[j],
            #[trigger] after[i],
            latest_first,
        ) by {
            if j < head.len() {
                assert(after[i] == head[i] && after[j] == head[j]);
            } else {
                assert(after[i] == head[i]);
                assert(after[j] == list.last());
                if head[i] != item {
                    let k = choose|k: int| 0 <= k < front.len() && head[i] == front[k];
                    assert(front[k] == list[k]);
                }
            }
        }
        assert(list =~= front.push(list.last()));
        assert(after.to_multiset() =~= list.to_multiset().insert(item));
    }
}

proof fn lemma_placed_members<T: Timed>(list: Seq<T>, item: T, latest_first: bool)
    ensures
        forall|i: int|
            0 <= i < placed(list, item, latest_first).len() ==> {
                let x = #[trigger] placed(list, item, latest_first)[i];
                x == item || exists|k: int| 0 <= k < list.len() && x == list[k]
            },
        placed(list, item, latest_first).len() == list.len() + 1,
    decreases list.len(),
{
    let after = placed(list, item, latest_first);
    if list.len() == 0 || !goes_first(item, list.last(), latest_first) {
        assert forall|i: int| 0 <= i < after.len() implies {
            let x = #[trigger] after[i];
            x == item || exists|k: int| 0 <= k < list.len() && x == list[k]
        } by {
            if i < list.len() {
                assert(after[i] == list[i]);
            }
        }
    } else {
        let front = list.drop_last();
        lemma_placed_members(front, item, latest_first);
        let head = placed(front, item, latest_first);
        assert forall|i: int| 0 <= i < after.len() implies {
            let x = #[trigger] after[i];
            x == item || exists|k: int| 0 <= k < list.len() && x == list[k]
        } by {
            if i < head.len() {
                assert(after[i] == head[i]);
                if head[i] != item {
                    let k = choose|k: int| 0 <= k < front.len() && head[i] == front[k];
                    assert(head[i] == list[k]);
                }
            } else {
                assert(after[i] == list[list.len() - 1]);
            }
        }
    }
}

/// A list in the order of time is in order, and holds what it was made of.
pub proof fn law_time_order<T: Timed>(items: Seq<T>, latest_first: bool)
    ensures
        time_ordered(in_time_order(items, latest_first), latest_first),
        in_time_order(items, latest_first).to_multiset() == items.to_multiset(),
        in_time_order(items, latest_first).len() == items.len(),
    decreases items.len(),
{
    broadcast use vstd::seq_lib::group_to_multiset_ensures;

    if items.len() > 0 {
        law_time_order(items.drop_last(), latest_first);
        lemma_placed(
            in_time_order(items.drop_last(), latest_first),
            items.last(),
            latest_first,
        );
        assert(items =~= items.drop_last().push(items.last()));
    }
}

proof fn lemma_placed_keeps_ties<T: Timed>(
    list: Seq<T>,
    item: T,
    latest_first: bool,
    at: Timestamp,
)
    requires
        time_ordered(list, latest_first),
    ensures
        placed(list, item, latest_first).filter(|x: T| x.spec_time() == at) == list.push(
            item,
        ).filter(|x: T| x.spec_time() == at),
    decreases list.len(),
{
    reveal(Seq::filter);
    let tied = |x: T| x.spec_time() == at;
    if list.len() > 0 && goes_first(item, list.last(), latest_first) {
        let front = list.drop_last();
        assert forall|i: int, j: int| 0 <= i < j < front.len() implies !goes_first(
            #[trigger] front[j],
            #[trigger] front[i],
            latest_first,
        ) by {
            assert(front[i] == list[i] && front[j] == list[j]);
        }
        lemma_placed_keeps_ties(front, item, latest_first, at);
        let head = placed(front, item, latest_first);
        assert(head.push(list.last()).drop_last() =~= head);
        assert(front.push(item).drop_last() =~= front);
        assert(list.push(item).drop_last() =~= list);
        assert(list.filter(tied) == if tied(list.last()) {
            front.filter(tied).push(list.last())
        } else {
            front.filter(tied)
        });
    }
}

/// Records of the same time stay in the order in which they came.
pub proof fn law_time_order_is_stable<T: Timed>(items: Seq<T>, latest_first: bool, at: Timestamp)
    ensures
        in_time_order(items, latest_first).filter(|x: T| x.spec_time() == at) == items.filter(
            |x: T| x.spec_time() == at,
        ),
    decreases items.len(),
{
    reveal(Seq::filter);
    if items.len() > 0 {
        let front = items.drop_last();
        let sorted = in_time_order(front, latest_first);
        law_time_order_is_stable(front, latest_first, at);
        law_time_order(front, latest_first);
        lemma_placed_keeps_ties(sorted, items.last(), latest_first, at);
        assert(sorted.push(items.last()).drop_last() =~= sorted);
    }
}

/// Of two records in the list none stands before the other that should stand
/// behind it: with the latest first, no record stands behind an earlier one;
/// otherwise, none behind a later one.
pub proof fn law_list_follows_time<T: Timed>(items: Seq<T>, latest_first: bool, i: int, j: int)
    requires
        0 <= i < j < items.len(),
    ensures
        latest_first ==> !in_time_order(items, latest_first)[i].spec_time().before(
            in_time_order(items, latest_first)[j].spec_time(),
        ),
        !latest_first ==> !in_time_order(items, latest_first)[j].spec_time().before(
            in_time_order(items, latest_first)[i].spec_time(),
        ),
{
    law_time_order(items, latest_first);
    let list = in_time_order(items, latest_first);
    assert(!goes_first(list[j], list[i], latest_first));
}

/// Operations are listed by when they were taken in, the earliest first, and
/// jobs by when they were started, the latest first; those of the same time in
/// the order in which they came.
pub proof fn law_what_time_lists_follow(
    operations: Seq<OperationRecord>,
    jobs: Seq<ScraperJob>,
    i: int,
    j: int,
    at: Timestamp,
)
    ensures
        0 <= i < j < operations.len() ==> !in_time_order(operations, false)[j].indexed_at.before(
            in_time_order(operations, false)[i].indexed_at,
        ),
        0 <= i < j < jobs.len() ==> !in_time_order(jobs, true)[i].started_at.before(
            in_time_order(jobs, true)[j].started_at,
        ),
        in_time_order(operations, false).filter(|o: OperationRecord| o.indexed_at == at)
            == operations.filter(|o: OperationRecord| o.indexed_at == at),
        in_time_order(jobs, true).filter(|o: ScraperJob| o.started_at == at) == jobs.filter(
            |o: ScraperJob| o.started_at == at,
        ),
        in_time_order(operations, false).to_multiset() == operations.to_multiset(),
        in_time_order(jobs, true).to_multiset() == jobs.to_multiset(),
{
    if 0 <= i < j < operations.len() {
        law_list_follows_time(operations, false, i, j);
    }
    if 0 <= i < j < jobs.len() {
        law_list_follows_time(jobs, true, i, j);
    }
    law_time_order(operations, false);
    law_time_order(jobs, true);
    law_time_order_is_stable(operations, false, at);
    law_time_order_is_stable(jobs, true, at);
    assert((|o: OperationRecord| o.indexed_at == at) =~= (|o: OperationRecord| o.spec_time()
        == at));
    assert((|o: ScraperJob| o.started_at == at) =~= (|o: ScraperJob| o.spec_time() == at));
}

/// Puts `item` in its place in the list.
fn place<T: Timed>(list: &mut Vec<T>, item: T, latest_first: bool)
    ensures
        final(list)@ == placed(old(list)@, item, latest_first),
{
    let ghost before = list@;
    let mut at: usize = list.len();
    let moment = item.time();
    assert(before.take(before.len() as int) =~= before);
    assert(before.skip(before.len() as int) =~= seq![]);
    assert(placed(before, item, latest_first) + seq![] =~= placed(before, item, latest_first));
    while at > 0
        invariant_except_break
            at <= before.len(),
            list@ == before,
            moment == item.spec_time(),
            placed(before, item, latest_first) == placed(
                before.take(at as int),
                item,
                latest_first,
            ) + before.skip(at as int),
        ensures
            at <= before.len(),
            list@ == before,
            placed(before, item, latest_first) == before.take(at as int).push(item) + before.skip(
                at as int,
            ),
        decreases at,
    {
        let other = list[at - 1].time();
        let first = if latest_first {
            other.is_before(&moment)
        } else {
            moment.is_before(&other)
        };
        let ghost part = before.take(at as int);
        assert(part.last() == before[at - 1]);
        if !first {
            break;
        }
        proof {
            assert(part.drop_last() =~= before.take(at - 1));
            assert(placed(before.take(at - 1), item, latest_first).push(before[at - 1])
                + before.skip(at as int) =~= placed(before.take(at - 1), item, latest_first)
                + before.skip(at - 1));
        }
        at = at - 1;
    }
    list.insert(at, item);
    assert(list@ =~= before.take(at as int).push(item) + before.skip(at as int));
}

/// The items in the order of time.
pub fn sort_by_time<T: Timed>(items: Vec<T>, latest_first: bool) -> (r: Vec<T>)
    ensures
        r@ == in_time_order(items@, latest_first),
{
    let ghost all = items@;
    let mut out: Vec<T> = Vec::new();
    assert(all.take(0) =~= seq![]);
    for item in it: items
        invariant
            it.seq() == all,
            out@ == in_time_order(all.take(it.index()), latest_first),
    {
        assert(all.take(it.index() + 1).drop_last() =~= all.take(it.index()));
        place(&mut out, item, latest_first);
    }
    assert(all.take(all.len() as int) =~= all);
    out
}

/// A page of an index that is being read: entries are skipped up to `offset`,
/// then records are taken until there are `limit`.
pub struct Page<T> {
    pub limit: usize,
    pub offset: usize,
    /// The entries that were skipped or looked up.
    pub count: usize,
    pub items: Vec<T>,
}

/// What a page holds.
pub struct PageView<T> {
    pub limit: int,
    pub offset: int,
    pub count: int,
    pub items: Seq<T>,
}

/// What is to be done about an index entry.
#[derive(Clone, Copy, Debug, PartialEq, Eq, Structural)]
pub enum PageStep {
    /// It comes before the page.
    Skip,
    /// The page is full.
    Stop,
    /// The record that it stands for is to be looked up.
    Fetch,
}

/// A page of which nothing was read yet.
pub open spec fn empty_page<T>(limit: int, offset: int) -> PageView<T> {
    PageView { limit, offset, count: 0, items: seq![] }
}

/// The page after one more entry, for which `found` was looked up where it was
/// not skipped and the page was not full.
pub open spec fn turn<T>(page: PageView<T>, found: Option<T>) -> PageView<T> {
    if page.count < page.offset {
        PageView { count: page.count + 1, ..page }
    } else if page.items.len() >= page.limit {
        page
    } else {
        PageView {
            count: page.count + 1,
            items: match found {
                Some(t) => page.items.push(t),
                None => page.items,
            },
            ..page
        }
    }
}

/// The page after all the entries.
pub open spec fn turned<T>(page: PageView<T>, entries: Seq<Option<T>>) -> PageView<T>
    decreases entries.len(),
{
    if entries.len() == 0 {
        page
    } else {
        turn(turned(page, entries.drop_last()), entries.last())
    }
}

/// The records that there are.
pub open spec fn present<T>(entries: Seq<Option<T>>) -> Seq<T>
    decreases entries.len(),
{
    if entries.len() == 0 {
        seq![]
    } else {
        match entries.last() {
            Some(t) => present(entries.drop_last()).push(t),
            None => present(entries.drop_last()),
        }
    }
}

/// Of an entry with a record the record is there, of one without nothing is, and
/// of entries behind others what is there stands behind what is there of those.
pub proof fn law_present_entry_by_entry<T>(a: Seq<Option<T>>, b: Seq<Option<T>>, item: T)
    ensures
        present(Seq::<Option<T>>::empty()) == Seq::<T>::empty(),
        present(seq![Some(item)]) == seq![item],
        present(seq![None::<T>]) == Seq::<T>::empty(),
        present(a + b) == present(a) + present(b),
    decreases b.len(),
{
    assert(seq![Some(item)].drop_last() =~= Seq::<Option<T>>::empty());
    assert(seq![None::<T>].drop_last() =~= Seq::<Option<T>>::empty());
    assert(seq![Some(item)].last() == Some(item));
    assert(seq![None::<T>].last() == None::<T>);
    assert(present(seq![Some(item)].drop_last()) =~= Seq::<T>::empty());
    assert(present(seq![Some(item)]) =~= seq![item]);
    assert(present(seq![None::<T>]) =~= Seq::<T>::empty());
    if b.len() == 0 {
        assert(a + b =~= a);
        assert(present(a) + present(b) =~= present(a));
    } else {
        law_present_entry_by_entry(a, b.drop_last(), item);
        assert((a + b).drop_last() =~= a + b.drop_last());
        assert((a + b).last() == b.last());
        assert(present(a + b) =~= present(a) + present(b));
    }
}

/// What is there is what was found, and nothing else.
pub proof fn law_present_are_those_found<T>(entries: Seq<Option<T>>, item: T)
    ensures
        present(entries).contains(item) <==> entries.contains(Some(item)),
    decreases entries.len(),
{
    if entries.len() > 0 {
        let front = entries.drop_last();
        law_present_are_those_found(front, item);
        assert(entries =~= front.push(entries.last()));
        let had = present(front);
        if entries.contains(Some(item)) {
            let i = choose|i: int| 0 <= i < entries.len() && entries[i] == Some(item);
            if i < front.len() {
                assert(front[i] == Some(item));
                let k = choose|k: int| 0 <= k < had.len() && had[k] == item;
                assert(present(entries)[k] == item);
            } else {
                assert(present(entries)[had.len() as int] == item);
            }
        }
        if present(entries).contains(item) {
            let k = choose|k: int| 0 <= k < present(entries).len() && present(entries)[k] == item;
            if k < had.len() {
                assert(had[k] == item);
                let i = choose|i: int| 0 <= i < front.len() && front[i] == Some(item);
                assert(entries[i] == Some(item));
            } else {
                assert(entries[front.len() as int] == Some(item));
            }
        }
    }
}

impl<T> Page<T> {
    /// What this page holds.
    pub open spec fn view(&self) -> PageView<T> {
        PageView {
            limit: self.limit as int,
            offset: self.offset as int,
            count: self.count as int,
            items: self.items@,
        }
    }

    /// A page of which nothing was read yet.
    pub fn new(limit: usize, offset: usize) -> (r: Page<T>)
        ensures
            r@ == empty_page::<T>(limit as int, offset as int),
    {
        let r = Page { limit, offset, count: 0, items: Vec::new() };
        assert(r.items@ =~= seq![]);
        r
    }

    /// What is to be done about the next index entry.
    pub fn entry(&mut self) -> (r: PageStep)
        ensures
            r == if old(self).count < old(self).offset {
                PageStep::Skip
            } else if old(self).items@.len() >= old(self).limit {
                PageStep::Stop
            } else {
                PageStep::Fetch
            },
            r is Skip || r is Stop ==> forall|found: Option<T>|
                final(self)@ == #[trigger] turn(old(self)@, found),
            r is Fetch ==> final(self)@ == old(self)@,
    {
        if self.count < self.offset {
            self.count = self.count + 1;
            return PageStep::Skip;
        }
        if self.items.len() >= self.limit {
            return PageStep::Stop;
        }
        PageStep::Fetch
    }

    /// Takes the record that was looked up, if there is one.
    pub fn took(&mut self, found: Option<T>)
        requires
            old(self).count >= old(self).offset,
            old(self).items@.len() < old(self).limit,
            old(self).count < usize::MAX,
        ensures
            final(self)@ == turn(old(self)@, found),
    {
        if let Some(t) = found {
            self.items.push(t);
        }
        self.count = self.count + 1;
    }
}

/// The first `limit` records that there are for the entries behind the first
/// `offset`.
pub open spec fn page_of<T>(limit: int, offset: int, entries: Seq<Option<T>>) -> Seq<T> {
    let behind = if offset <= entries.len() {
        entries.skip(offset)
    } else {
        seq![]
    };
    let all = present(behind);
    if all.len() <= limit {
        all
    } else {
        all.take(limit)
    }
}

/// A page that was read to the end of its index holds the first `limit`
/// records that there are for the entries behind the first `offset`.
pub proof fn law_page<T>(limit: int, offset: int, entries: Seq<Option<T>>)
    requires
        0 <= limit,
        0 <= offset,
    ensures
        turned(empty_page::<T>(limit, offset), entries).items == page_of(limit, offset, entries),
{
    lemma_page::<T>(limit, offset, entries);
}

/// The page of an index, of the records that there are for its entries.
pub fn read_page<T>(limit: usize, offset: usize, entries: Vec<Option<T>>) -> (r: Vec<T>)
    ensures
        r@ == page_of(limit as int, offset as int, entries@),
{
    let ghost all = entries@;
    let total: usize = entries.len();
    let mut page: Page<T> = Page::new(limit, offset);
    let ghost start = page@;
    assert(all.take(0) =~= seq![]);
    for found in it: entries
        invariant
            it.seq() == all,
            all.len() == total,
            page@ == turned(start, all.take(it.index())),
            page.count <= it.index(),
    {
        assert(all.take(it.index() + 1).drop_last() =~= all.take(it.index()));
        let ghost before = page@;
        match page.entry() {
            PageStep::Fetch => page.took(found),
            _ => {},
        }
        assert(page@ == turn(before, found));
    }
    proof {
        assert(all.take(all.len() as int) =~= all);
        law_page(limit as int, offset as int, all);
    }
    page.items
}

proof fn lemma_page<T>(limit: int, offset: int, entries: Seq<Option<T>>)
    requires
        0 <= limit,
        0 <= offset,
    ensures
        ({
            let page = turned(empty_page::<T>(limit, offset), entries);
            &&& page.limit == limit
            &&& page.offset == offset
            &&& entries.len() <= offset ==> page.count == entries.len() && page.items =~= seq![]
            &&& entries.len() >= offset ==> {
                let all = present(entries.skip(offset));
                &&& page.count >= offset
                &&& page.items =~= if all.len() <= limit {
                    all
                } else {
                    all.take(limit)
                }
            }
        }),
    decreases entries.len(),
{
    if entries.len() == 0 {
        if offset == 0 {
            assert(entries.skip(0) =~= seq![]);
        }
    } else {
        let front = entries.drop_last();
        lemma_page::<T>(limit, offset, front);
        if entries.len() > offset {
            assert(entries.skip(offset).drop_last() =~= front.skip(offset));
            assert(entries.skip(offset).last() == entries.last());
        } else if entries.len() == offset {
            assert(entries.skip(offset) =~= seq![]);
        }
    }
}

/// A page is made up entry by entry: those that are passed over leave no trace;
/// then each entry with a record puts it on the page and takes one of its
/// places, each without leaves the page as it is, and a page without places or
/// behind the end of the index is empty.
pub proof fn law_page_entry_by_entry<T>(
    limit: int,
    passed: Seq<Option<T>>,
    rest: Seq<Option<T>>,
    item: T,
)
    requires
        0 <= limit,
    ensures
        page_of(limit, passed.len() as int, passed + rest) == page_of(limit, 0, rest),
        page_of(limit + 1, 0, seq![Some(item)] + rest) == seq![item] + page_of(limit, 0, rest),
        page_of(limit, 0, seq![None::<T>] + rest) == page_of(limit, 0, rest),
        page_of(0, 0, rest) == Seq::<T>::empty(),
        forall|offset: int|
            offset >= rest.len() ==> #[trigger] page_of(limit, offset, rest) == Seq::<T>::empty(),
{
    assert((passed + rest).skip(passed.len() as int) =~= rest);
    assert(rest.skip(0) =~= rest);
    let some = seq![Some(item)] + rest;
    let none = seq![None::<T>] + rest;
    assert(some.skip(0) =~= some);
    assert(none.skip(0) =~= none);
    law_present_entry_by_entry(seq![Some(item)], rest, item);
    law_present_entry_by_entry(seq![None::<T>], rest, item);
    assert(present(none) =~= present(rest));
    assert(page_of(limit + 1, 0, some) =~= seq![item] + page_of(limit, 0, rest));
    assert(page_of(0, 0, rest) =~= Seq::<T>::empty());
    assert forall|offset: int| offset >= rest.len() implies #[trigger] page_of(limit, offset, rest)
        == Seq::<T>::empty() by {
        if offset == rest.len() {
            assert(rest.skip(offset) =~= Seq::<Option<T>>::empty());
        }
    }
}

/// A page that is full stays as it is, so nothing is lost where the reading of
/// its index ends early.
pub proof fn law_full_page_is_done<T>(page: PageView<T>, entries: Seq<Option<T>>)
    requires
        page.count >= page.offset,
        page.items.len() >= page.limit,
    ensures
        turned(page, entries) == page,
    decreases entries.len(),
{
    if entries.len() > 0 {
        law_full_page_is_done(page, entries.drop_last());
    }
}

/// The record of a DID as it is listed: none where the DID is gone.
pub open spec fn spec_shown(found: Option<DidRecord>) -> Option<DidRecord> {
    match found {
        Some(record) => if record.is_tombstoned {
            None
        } else {
            found
        },
        None => None,
    }
}

/// A record that was found is listed, as it was found, if and only if its DID is
/// not gone, whatever else it says; where none was found, none is listed.
pub proof fn law_shown_unless_gone(record: DidRecord)
    ensures
        spec_shown(Some(record)) == Some(record) <==> !record.is_tombstoned,
        spec_shown(Some(record)) is None <==> record.is_tombstoned,
        spec_shown(None) is None,
{
}

/// The page of the DIDs shows the records that were found behind the first
/// `offset` entries and whose DIDs are not gone, in the order in which they were
/// found, up to `limit`: all of them where the limit leaves room.
pub proof fn law_listed_dids(limit: int, offset: int, found: Seq<Option<DidRecord>>)
    requires
        0 <= limit,
        0 <= offset <= found.len(),
    ensures
        ({
            let there = present(found.skip(offset)).filter(|r: DidRecord| !r.is_tombstoned);
            let listed = page_of(
                limit,
                offset,
                found.map_values(|f: Option<DidRecord>| spec_shown(f)),
            );
            &&& listed.len() == if there.len() <= limit {
                there.len() as int
            } else {
                limit
            }
            &&& forall|i: int| 0 <= i < listed.len() ==> (#[trigger] listed[i]) == there[i]
            &&& there.len() <= limit ==> listed == there
            &&& limit >= found.len() - offset ==> listed == there
        }),
{
    let shown = found.map_values(|f: Option<DidRecord>| spec_shown(f));
    let behind = found.skip(offset);
    assert(shown.skip(offset) =~= behind.map_values(|f: Option<DidRecord>| spec_shown(f)));
    lemma_shown_are_those_not_gone(behind);
    lemma_present_is_no_longer(behind);
    present(behind).lemma_filter_len(|r: DidRecord| !r.is_tombstoned);
}

proof fn lemma_present_is_no_longer<T>(entries: Seq<Option<T>>)
    ensures
        present(entries).len() <= entries.len(),
    decreases entries.len(),
{
    if entries.len() > 0 {
        lemma_present_is_no_longer(entries.drop_last());
    }
}

proof fn lemma_shown_are_those_not_gone(found: Seq<Option<DidRecord>>)
    ensures
        present(found.map_values(|f: Option<DidRecord>| spec_shown(f))) == present(found).filter(
            |r: DidRecord| !r.is_tombstoned,
        ),
    decreases found.len(),
{
    reveal(Seq::filter);
    let here = |r: DidRecord| !r.is_tombstoned;
    let shown = found.map_values(|f: Option<DidRecord>| spec_shown(f));
    if found.len() > 0 {
        let front = found.drop_last();
        lemma_shown_are_those_not_gone(front);
        assert(shown.drop_last() =~= front.map_values(|f: Option<DidRecord>| spec_shown(f)));
        if let Some(record) = found.last() {
            law_shown_unless_gone(record);
            let had = present(front);
            assert(had.push(record).drop_last() =~= had);
        }
    }
}

/// The record of a DID as it is listed: none where the DID is gone.
pub fn shown(found: Option<DidRecord>) -> (r: Option<DidRecord>)
    ensures
        r == spec_shown(found),
        found matches Some(record) ==> (r == Some(record) <==> !record.is_tombstoned),
        found matches Some(record) ==> (r is None <==> record.is_tombstoned),
        found is None ==> r is None,
{
    match found {
        Some(record) => if record.is_tombstoned {
            None
        } else {
            Some(record)
        },
        None => None,
    }
}

/// Whether a search in lower case finds a DID with that document: in the DID,
/// in its handle, or in where its personal data server is.
pub open spec fn found_by(did: Seq<char>, doc: JsonView, term: Seq<char>) -> bool {
    ||| text::has_part(text::lower_case(did), term)
    ||| text::has_part(text::lower_case(document::text_or(document::handle(doc), ""@)), term)
    ||| text::has_part(text::lower_case(document::text_or(document::pds_endpoint(doc), ""@)), term)
}

/// A search finds a DID if and only if what is searched for stands in the lower
/// case form of the DID itself, of its handle, or of where its personal data
/// server is; a handle or a server that there is not is an empty text.
pub proof fn law_where_a_search_looks(did: Seq<char>, doc: JsonView, term: Seq<char>)
    ensures
        text::has_part(text::lower_case(did), term) ==> found_by(did, doc, term),
        forall|name: Seq<char>|
            document::handle(doc) == Some(name) && #[trigger] text::has_part(
                text::lower_case(name),
                term,
            ) ==> found_by(did, doc, term),
        forall|endpoint: Seq<char>|
            document::pds_endpoint(doc) == Some(endpoint) && #[trigger] text::has_part(
                text::lower_case(endpoint),
                term,
            ) ==> found_by(did, doc, term),
        found_by(did, doc, term) ==> exists|place: Seq<char>| #[trigger]
            text::has_part(text::lower_case(place), term) && (place == did || place
                == match document::handle(doc) {
                Some(name) => name,
                None => ""@,
            } || place == match document::pds_endpoint(doc) {
                Some(endpoint) => endpoint,
                None => ""@,
            }),
{
}

/// Whether a search in lower case finds the record.
pub fn matches_term(record: &DidRecord, term: &str) -> (r: bool)
    ensures
        r == found_by(record.did@, record.document_val@, term@),
        text::has_part(text::lower_case(record.did@), term@) ==> r,
        term@.len() > 0 && document::handle(record.document_val@) is None
            && document::pds_endpoint(record.document_val@) is None ==> r == text::has_part(
            text::lower_case(record.did@),
            term@,
        ),
{
    proof {
        reveal_strlit("");
    }
    let handle = text::to_lower(document::handle_or(&record.document_val, "").as_str());
    let endpoint = text::to_lower(document::pds_endpoint_or(&record.document_val, "").as_str());
    let did = text::to_lower(record.did.as_str());
    text::str_contains(did.as_str(), term) || text::str_contains(handle.as_str(), term)
        || text::str_contains(endpoint.as_str(), term)
}

/// `r` is the record with the value of its stored document, where that is
/// JSON.
pub open spec fn documented(r: DidRecord, record: DidRecord) -> bool {
    match json::parsed(record.document_json_string@) {
        Some(v) => r == (DidRecord { document_val: r.document_val, ..record })
            && r.document_val@ == v,
        None => r == record,
    }
}

/// Reading its stored document changes nothing of a record but the value of the
/// document, which is what the text says where that is JSON, and else stays.
pub proof fn law_document_is_read(r: DidRecord, record: DidRecord)
    requires
        documented(r, record),
    ensures
        r.id == record.id,
        r.did == record.did,
        r.document_json_string == record.document_json_string,
        r.last_operation_cid == record.last_operation_cid,
        r.created_at == record.created_at,
        r.updated_at == record.updated_at,
        r.is_tombstoned == record.is_tombstoned,
        json::parsed(record.document_json_string@) is Some ==> json::parsed(
            record.document_json_string@,
        ) == Some(r.document_val@),
        json::parsed(record.document_json_string@) is None ==> r.document_val
            == record.document_val,
{
}

/// The record with the value of its stored document, where that is JSON.
pub fn with_document(record: DidRecord) -> (r: DidRecord)
    ensures
        documented(r, record),
{
    match Json::parse(record.document_json_string.as_str()) {
        Some(document_val) => DidRecord { document_val, ..record },
        None => record,
    }
}

/// A search that goes through the records.
pub struct Search {
    /// What is searched for, in lower case.
    pub term: String,
    pub limit: usize,
    pub offset: usize,
    pub skipped: usize,
    pub results: Vec<DidRecord>,
}

/// How far a search has come.
pub struct SearchView {
    pub term: Seq<char>,
    pub limit: int,
    pub offset: int,
    pub skipped: int,
    pub results: Seq<DidRecord>,
}

/// A search that has seen nothing.
pub open spec fn empty_search(term: Seq<char>, limit: int, offset: int) -> SearchView {
    SearchView { term, limit, offset, skipped: 0, results: seq![] }
}

/// Whether the search finds the record.
pub open spec fn hits(term: Seq<char>, record: DidRecord) -> bool {
    found_by(record.did@, record.document_val@, term)
}

/// The search after one more record.
pub open spec fn searched(search: SearchView, record: DidRecord) -> SearchView {
    if !hits(search.term, record) {
        search
    } else if search.skipped < search.offset {
        SearchView { skipped: search.skipped + 1, ..search }
    } else if search.results.len() < search.limit {
        SearchView { results: search.results.push(record), ..search }
    } else {
        search
    }
}

/// The search after all the records.
pub open spec fn searched_all(search: SearchView, records: Seq<DidRecord>) -> SearchView
    decreases records.len(),
{
    if records.len() == 0 {
        search
    } else {
        searched(searched_all(search, records.drop_last()), records.last())
    }
}

/// The search has all the results that it may have, so that one more record
/// that it finds ends it.
pub open spec fn is_full(search: SearchView) -> bool {
    search.skipped >= search.offset && search.results.len() >= search.limit
}

impl Search {
    /// How far this search has come.
    pub open spec fn view(&self) -> SearchView {
        SearchView {
            term: self.term@,
            limit: self.limit as int,
            offset: self.offset as int,
            skipped: self.skipped as int,
            results: self.results@,
        }
    }

    /// A search for `search_term` in any case, past the first `offset` records
    /// that it finds, for at most `limit`.
    pub fn new(search_term: &str, limit: usize, offset: usize) -> (r: Search)
        ensures
            r@ == empty_search(text::lower_case(search_term@), limit as int, offset as int),
            search_term@.len() == 0 ==> r@.term.len() == 0,
    {
        let r = Search {
            term: text::to_lower(search_term),
            limit,
            offset,
            skipped: 0,
            results: Vec::new(),
        };
        assert(r.results@ =~= seq![]);
        r
    }

    /// Goes on with the next record; the result says whether the search goes
    /// on behind it.
    pub fn offer(&mut self, record: DidRecord) -> (go_on: bool)
        ensures
            final(self)@ == searched(old(self)@, record),
            go_on == !(hits(old(self)@.term, record) && is_full(old(self)@)),
    {
        if !matches_term(&record, self.term.as_str()) {
            return true;
        }
        if self.skipped < self.offset {
            self.skipped = self.skipped + 1;
            return true;
        }
        if self.results.len() < self.limit {
            self.results.push(record);
            true
        } else {
            false
        }
    }

    /// Goes on with what was read next; what is no record is passed over.
    pub fn offer_read(&mut self, read: Result<DidRecord, String>) -> (go_on: bool)
        ensures
            match read {
                Ok(record) => exists|r: DidRecord| #[trigger]
                    documented(r, record) && final(self)@ == searched(old(self)@, r) && go_on == !(
                    hits(old(self)@.term, r) && is_full(old(self)@)),
                Err(_) => go_on && final(self)@ == old(self)@,
            },
    {
        match read {
            Ok(record) => {
                let ready = with_document(record);
                self.offer(ready)
            },
            Err(_) => true,
        }
    }
}

/// The records among what was read.
pub open spec fn readable(reads: Seq<Result<DidRecord, String>>) -> Seq<DidRecord>
    decreases reads.len(),
{
    if reads.len() == 0 {
        seq![]
    } else {
        match reads.last() {
            Ok(record) => readable(reads.drop_last()).push(record),
            Err(_) => readable(reads.drop_last()),
        }
    }
}

/// What was read as a record is among the records, what could not be read is
/// not, and what was read later stands behind.
pub proof fn law_readable_one_by_one(
    a: Seq<Result<DidRecord, String>>,
    b: Seq<Result<DidRecord, String>>,
    record: DidRecord,
    cause: String,
)
    ensures
        readable(Seq::<Result<DidRecord, String>>::empty()) == Seq::<DidRecord>::empty(),
        readable(seq![Ok::<DidRecord, String>(record)]) == seq![record],
        readable(seq![Err::<DidRecord, String>(cause)]) == Seq::<DidRecord>::empty(),
        readable(a + b) == readable(a) + readable(b),
    decreases b.len(),
{
    let good = seq![Ok::<DidRecord, String>(record)];
    let bad = seq![Err::<DidRecord, String>(cause)];
    assert(good.drop_last() =~= Seq::empty());
    assert(bad.drop_last() =~= Seq::empty());
    assert(good.last() == Ok::<DidRecord, String>(record));
    assert(bad.last() == Err::<DidRecord, String>(cause));
    assert(readable(good.drop_last()) =~= Seq::<DidRecord>::empty());
    assert(readable(good) =~= seq![record]);
    assert(readable(bad) =~= Seq::<DidRecord>::empty());
    if b.len() == 0 {
        assert(a + b =~= a);
        assert(readable(a) + readable(b) =~= readable(a));
    } else {
        law_readable_one_by_one(a, b.drop_last(), record, cause);
        assert((a + b).drop_last() =~= a + b.drop_last());
        assert((a + b).last() == b.last());
        assert(readable(a + b) =~= readable(a) + readable(b));
    }
}

/// `ready` are the records with the values of their stored documents.
pub open spec fn all_documented(ready: Seq<DidRecord>, records: Seq<DidRecord>) -> bool {
    &&& ready.len() == records.len()
    &&& forall|i: int| 0 <= i < ready.len() ==> documented(#[trigger] ready[i], records[i])
}

/// Reading their documents changes neither how many records there are nor their
/// order: each is the one that stands in its place, with its document read.
pub proof fn law_documents_are_read(ready: Seq<DidRecord>, records: Seq<DidRecord>, i: int)
    requires
        all_documented(ready, records),
    ensures
        ready.len() == records.len(),
        0 <= i < records.len() ==> {
            &&& ready[i].did == records[i].did
            &&& ready[i].document_json_string == records[i].document_json_string
            &&& ready[i].is_tombstoned == records[i].is_tombstoned
            &&& json::parsed(records[i].document_json_string@) is Some ==> json::parsed(
                records[i].document_json_string@,
            ) == Some(ready[i].document_val@)
        },
{
    if 0 <= i < records.len() {
        assert(documented(ready[i], records[i]));
    }
}

/// The records that a search finds among what was read.
pub fn search(
    search_term: &str,
    limit: usize,
    offset: usize,
    reads: Vec<Result<DidRecord, String>>,
) -> (r: Vec<DidRecord>)
    ensures
        exists|ready: Seq<DidRecord>| #[trigger]
            all_documented(ready, readable(reads@)) && r@ == window(
                all_hits(text::lower_case(search_term@), ready),
                limit as int,
                offset as int,
            ) && (search_term@.len() == 0 ==> r@ == window(ready, limit as int, offset as int)),
{
    let ghost all = reads@;
    let mut search = Search::new(search_term, limit, offset);
    let ghost start = search@;
    let ghost mut ready: Seq<DidRecord> = seq![];
    assert(all.take(0) =~= seq![]);
    for read in it: reads
        invariant
            it.seq() == all,
            all_documented(ready, readable(all.take(it.index()))),
            search@ == searched_all(start, ready),
    {
        assert(all.take(it.index() + 1).drop_last() =~= all.take(it.index()));
        match read {
            Ok(record) => {
                let next = with_document(record);
                let ghost had = ready;
                proof {
                    ready = had.push(next);
                    assert(ready.drop_last() =~= had);
                }
                search.offer(next);
            },
            Err(_) => {},
        }
    }
    proof {
        let term = text::lower_case(search_term@);
        assert(all.take(all.len() as int) =~= all);
        law_search(term, limit as int, offset as int, ready);
        if search_term@.len() == 0 {
            law_empty_term_finds_all(term, ready);
        }
    }
    search.results
}

/// How many records a search finds among what was read.
pub fn count_hits(search_term: &str, reads: Vec<Result<DidRecord, String>>) -> (r: usize)
    ensures
        exists|ready: Seq<DidRecord>| #[trigger]
            all_documented(ready, readable(reads@)) && r == all_hits(
                text::lower_case(search_term@),
                ready,
            ).len(),
        search_term@.len() == 0 ==> r == readable(reads@).len(),
{
    let ghost all = reads@;
    let total: usize = reads.len();
    let mut count = SearchCount::new(search_term);
    let ghost term = count.term@;
    let ghost mut ready: Seq<DidRecord> = seq![];
    assert(all.take(0) =~= seq![]);
    for read in it: reads
        invariant
            it.seq() == all,
            all.len() == total,
            all_documented(ready, readable(all.take(it.index()))),
            count.term@ == term,
            count.count == counted(term, ready),
            count.count <= it.index(),
    {
        assert(all.take(it.index() + 1).drop_last() =~= all.take(it.index()));
        match read {
            Ok(record) => {
                let next = with_document(record);
                let ghost had = ready;
                proof {
                    ready = had.push(next);
                    assert(ready.drop_last() =~= had);
                }
                count.offer(&next);
            },
            Err(_) => {},
        }
    }
    proof {
        assert(all.take(all.len() as int) =~= all);
        law_count_matches_search(term, 0, 0, ready);
        if search_term@.len() == 0 {
            law_empty_term_finds_all(term, ready);
        }
    }
    count.count
}

/// The records that a search finds.
pub open spec fn all_hits(term: Seq<char>, records: Seq<DidRecord>) -> Seq<DidRecord> {
    records.filter(|r: DidRecord| hits(term, r))
}

/// A search goes by the DID and the document of a record alone: it finds one more
/// record behind others if and only if what is searched for stands in one of the
/// three places, in whatever state the record is, and then as it is.
pub proof fn law_search_finds_by_text_alone(
    term: Seq<char>,
    records: Seq<DidRecord>,
    record: DidRecord,
)
    ensures
        ({
            let places = seq![
                record.did@,
                document::text_or(document::handle(record.document_val@), ""@),
                document::text_or(document::pds_endpoint(record.document_val@), ""@),
            ];
            let found = exists|i: int|
                0 <= i < places.len() && text::has_part(
                    text::lower_case(#[trigger] places[i]),
                    term,
                );
            &&& hits(term, record) <==> found
            &&& found ==> all_hits(term, records.push(record)) == all_hits(term, records).push(
                record,
            )
            &&& !found ==> all_hits(term, records.push(record)) == all_hits(term, records)
            &&& all_hits(term, Seq::<DidRecord>::empty()) == Seq::<DidRecord>::empty()
        }),
{
    reveal(Seq::filter);
    assert(records.push(record).drop_last() =~= records);
    let places = seq![
        record.did@,
        document::text_or(document::handle(record.document_val@), ""@),
        document::text_or(document::pds_endpoint(record.document_val@), ""@),
    ];
    assert(places[0] == record.did@);
    assert(places[1] == document::text_or(document::handle(record.document_val@), ""@));
    assert(places[2] == document::text_or(document::pds_endpoint(record.document_val@), ""@));
}

/// A search for nothing finds every record.
pub proof fn law_empty_term_finds_all(term: Seq<char>, records: Seq<DidRecord>)
    requires
        term.len() == 0,
    ensures
        all_hits(term, records) == records,
    decreases records.len(),
{
    reveal(Seq::filter);
    if records.len() > 0 {
        law_empty_term_finds_all(term, records.drop_last());
        let did = text::lower_case(records.last().did@);
        assert(did.subrange(0, 0) =~= term);
        assert(text::stands_at(did, term, 0));
        assert(records =~= records.drop_last().push(records.last()));
    }
}

/// What a search finds, and how much that is, does not depend on the letter case
/// of the term: terms with the same lower case find the same.
pub proof fn law_letter_case_does_not_matter(
    a: Seq<char>,
    b: Seq<char>,
    limit: int,
    offset: int,
    records: Seq<DidRecord>,
)
    requires
        text::lower_case(a) == text::lower_case(b),
    ensures
        counted(text::lower_case(a), records) == counted(text::lower_case(b), records),
        searched_all(empty_search(text::lower_case(a), limit, offset), records) == searched_all(
            empty_search(text::lower_case(b), limit, offset),
            records,
        ),
{
}

/// The count of what was read is the number of records that a search of the same
/// finds from the first on, where its limit leaves room for them; both may have
/// read the stored documents for themselves.
pub proof fn law_count_is_length_of_search(
    term: Seq<char>,
    limit: int,
    records: Seq<DidRecord>,
    read_for_count: Seq<DidRecord>,
    read_for_search: Seq<DidRecord>,
)
    requires
        records.len() <= limit,
        all_documented(read_for_count, records),
        all_documented(read_for_search, records),
    ensures
        all_hits(term, read_for_count).len() == window(
            all_hits(term, read_for_search),
            limit,
            0,
        ).len(),
{
    lemma_hits_agree(term, records, read_for_count, read_for_search);
    let all = all_hits(term, read_for_search);
    read_for_search.lemma_filter_len(|r: DidRecord| hits(term, r));
    assert(all.skip(0) =~= all);
}

proof fn lemma_hits_agree(
    term: Seq<char>,
    records: Seq<DidRecord>,
    a: Seq<DidRecord>,
    b: Seq<DidRecord>,
)
    requires
        all_documented(a, records),
        all_documented(b, records),
    ensures
        all_hits(term, a).len() == all_hits(term, b).len(),
    decreases records.len(),
{
    reveal(Seq::filter);
    if records.len() > 0 {
        let n = records.len() - 1;
        assert(documented(a[n], records[n]));
        assert(documented(b[n], records[n]));
        assert forall|i: int| 0 <= i < n implies documented(
            #[trigger] a.drop_last()[i],
            records.drop_last()[i],
        ) by {
            assert(documented(a[i], records[i]));
        }
        assert forall|i: int| 0 <= i < n implies documented(
            #[trigger] b.drop_last()[i],
            records.drop_last()[i],
        ) by {
            assert(documented(b[i], records[i]));
        }
        lemma_hits_agree(term, records.drop_last(), a.drop_last(), b.drop_last());
    }
}

/// What lies behind the first `offset`, up to `limit`.
pub open spec fn window<T>(all: Seq<T>, limit: int, offset: int) -> Seq<T> {
    if all.len() <= offset {
        seq![]
    } else if all.len() <= offset + limit {
        all.skip(offset)
    } else {
        all.subrange(offset, offset + limit)
    }
}

/// The part of a list behind the first `offset`, up to `limit`, is as long as
/// the list and the limit allow, and holds what stands there, in its order.
pub proof fn law_window<T>(all: Seq<T>, limit: int, offset: int)
    requires
        0 <= limit,
        0 <= offset,
    ensures
        offset + limit <= all.len() ==> window(all, limit, offset).len() == limit,
        offset <= all.len() <= offset + limit ==> window(all, limit, offset).len() == all.len()
            - offset,
        all.len() <= offset ==> window(all, limit, offset).len() == 0,
        forall|i: int|
            0 <= i < window(all, limit, offset).len() ==> (#[trigger] window(all, limit, offset)[i])
                == all[offset + i],
{
}

/// A search goes on until it is full: a record that it finds changes it exactly
/// as long as it is not, and one that it does not find never does.
pub proof fn law_search_goes_on(search: SearchView, record: DidRecord)
    ensures
        hits(search.term, record) ==> (searched(search, record) == search <==> is_full(search)),
        !hits(search.term, record) ==> searched(search, record) == search,
        is_full(search) <==> (search.skipped >= search.offset && search.results.len()
            >= search.limit),
{
    if hits(search.term, record) && !is_full(search) {
        let after = searched(search, record);
        if search.skipped >= search.offset {
            assert(after.results.len() == search.results.len() + 1);
        }
    }
}

/// A search gives the records that it finds, behind the first `offset` and up
/// to `limit`, in the order in which they stand.
pub proof fn law_search(term: Seq<char>, limit: int, offset: int, records: Seq<DidRecord>)
    requires
        0 <= limit,
        0 <= offset,
    ensures
        searched_all(empty_search(term, limit, offset), records).results == window(
            all_hits(term, records),
            limit,
            offset,
        ),
{
    lemma_search(term, limit, offset, records);
}

proof fn lemma_search(term: Seq<char>, limit: int, offset: int, records: Seq<DidRecord>)
    requires
        0 <= limit,
        0 <= offset,
    ensures
        ({
            let search = searched_all(empty_search(term, limit, offset), records);
            let all = all_hits(term, records);
            &&& search.term == term
            &&& search.limit == limit
            &&& search.offset == offset
            &&& search.skipped == if all.len() <= offset {
                all.len() as int
            } else {
                offset
            }
            &&& search.results =~= window(all, limit, offset)
        }),
    decreases records.len(),
{
    reveal(Seq::filter);
    if records.len() > 0 {
        lemma_search(term, limit, offset, records.drop_last());
    }
}

/// A search that is full stays as it is, so nothing is lost where it ends
/// early.
pub proof fn law_full_search_is_done(search: SearchView, records: Seq<DidRecord>)
    requires
        is_full(search),
    ensures
        searched_all(search, records) == search,
    decreases records.len(),
{
    if records.len() > 0 {
        law_full_search_is_done(search, records.drop_last());
    }
}

/// Two pages of a search, one behind the other, are one page of both.
pub proof fn law_search_pages_join(
    term: Seq<char>,
    limit: int,
    more: int,
    offset: int,
    records: Seq<DidRecord>,
)
    requires
        0 <= limit,
        0 <= more,
        0 <= offset,
    ensures
        searched_all(empty_search(term, limit, offset), records).results + searched_all(
            empty_search(term, more, offset + limit),
            records,
        ).results == searched_all(empty_search(term, limit + more, offset), records).results,
{
    law_search(term, limit, offset, records);
    law_search(term, more, offset + limit, records);
    law_search(term, limit + more, offset, records);
    let all = all_hits(term, records);
    assert(window(all, limit, offset) + window(all, more, offset + limit) =~= window(
        all,
        limit + more,
        offset,
    ));
}

/// The records that a search finds, counted.
pub struct SearchCount {
    /// What is searched for, in lower case.
    pub term: String,
    pub count: usize,
}

impl SearchCount {
    /// Nothing was counted yet.
    pub fn new(search_term: &str) -> (r: SearchCount)
        ensures
            r.term@ == text::lower_case(search_term@),
            r.count == 0,
            search_term@.len() == 0 ==> r.term@.len() == 0,
    {
        SearchCount { term: text::to_lower(search_term), count: 0 }
    }

    /// Counts the record where the search finds it.
    pub fn offer(&mut self, record: &DidRecord)
        requires
            old(self).count < usize::MAX,
        ensures
            final(self).term == old(self).term,
            final(self).count == old(self).count + if hits(old(self).term@, *record) {
                1int
            } else {
                0
            },
    {
        if matches_term(record, self.term.as_str()) {
            self.count = self.count + 1;
        }
    }

    /// Counts what was read next where it is a record that the search finds.
    pub fn offer_read(&mut self, read: Result<DidRecord, String>)
        requires
            old(self).count < usize::MAX,
        ensures
            final(self).term == old(self).term,
            match read {
                Ok(record) => exists|r: DidRecord| #[trigger]
                    documented(r, record) && final(self).count == old(self).count + if hits(
                        old(self).term@,
                        r,
                    ) {
                        1int
                    } else {
                        0
                    },
                Err(_) => final(self).count == old(self).count,
            },
    {
        if let Ok(record) = read {
            let ready = with_document(record);
            self.offer(&ready);
        }
    }
}

/// What counting one record after the other comes to.
pub open spec fn counted(term: Seq<char>, records: Seq<DidRecord>) -> int
    decreases records.len(),
{
    if records.len() == 0 {
        0
    } else {
        counted(term, records.drop_last()) + if hits(term, records.last()) {
            1int
        } else {
            0
        }
    }
}

/// The count is that of the records that the search finds: no page of it, nor
/// all of them together, holds more.
pub proof fn law_count_matches_search(
    term: Seq<char>,
    limit: int,
    offset: int,
    records: Seq<DidRecord>,
)
    requires
        0 <= limit,
        0 <= offset,
    ensures
        counted(term, records) == all_hits(term, records).len(),
        searched_all(empty_search(term, limit, offset), records).results.len() <= counted(
            term,
            records,
        ),
        offset == 0 && limit >= counted(term, records) ==> searched_all(
            empty_search(term, limit, offset),
            records,
        ).results == all_hits(term, records),
    decreases records.len(),
{
    reveal(Seq::filter);
    law_search(term, limit, offset, records);
    if records.len() > 0 {
        law_count_matches_search(term, limit, offset, records.drop_last());
    }
    if offset == 0 {
        assert(all_hits(term, records).skip(0) =~= all_hits(term, records));
    }
}

} // verus!
