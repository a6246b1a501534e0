//! What the mirror answers to those who ask it.

use vstd::prelude::*;
use vstd::string::*;
use crate::clock::Timestamp;
use crate::database;
use crate::database::DbError;
use crate::document;
use crate::holdings;
use crate::json;
use crate::listing;
use crate::models::{DidRecord, PlcOperation, Stats};
use crate::storage_keys;
use crate::store;
use crate::store::{Partition, Stored};
use crate::text;

verus! {

/// How many records a listing shows when the caller does not say.
pub fn default_limit() -> (limit: usize)
    ensures
        limit == 50,
{
    50
}

/// What is asked of the page of the DIDs.
#[derive(Debug)]
pub struct DidsQuery {
    pub limit: usize,
    pub offset: usize,
    pub page: usize,
    pub search: Option<String>,
}

/// Which part of a list is asked for.
#[derive(Debug)]
pub struct PaginationQuery {
    pub limit: usize,
    pub offset: usize,
}

/// A DID as it is shown.
#[derive(Debug)]
pub struct DidRecordForDisplay {
    pub did: String,
    pub handle: String,
    pub pds_endpoint: String,
    pub last_seen: Timestamp,
}

/// What the page of the DIDs shows.
#[derive(Debug)]
pub struct DidsPartial {
    pub dids: Vec<DidRecordForDisplay>,
    pub search_query: Option<String>,
    pub current_page: usize,
    pub has_next_page: bool,
    pub total_found: usize,
}

/// Where the records of the page of the DIDs come from.
#[derive(Debug)]
pub enum DidsSource {
    /// From the index, and the total from the totals.
    All,
    /// From a search for that text.
    Search(String),
}

/// How the page of the DIDs is put together.
#[derive(Debug)]
pub struct DidsPlan {
    pub page: usize,
    pub limit: usize,
    pub offset: usize,
    pub source: DidsSource,
}

impl DidsQuery {
    /// The page that is asked for; the first where none is named.
    pub open spec fn spec_page(self) -> int {
        if self.page == 0 {
            1
        } else {
            self.page as int
        }
    }

    /// How many records come before that page.
    pub open spec fn spec_offset(self) -> int {
        (self.spec_page() - 1) * self.limit
    }

    /// Whether the records up to the end of the page can be counted.
    pub fn can_be_counted(&self) -> (r: bool)
        ensures
            r == (self.spec_offset() + self.limit <= usize::MAX),
            self.page == 0 ==> r,
            self.page > 0 ==> r == (self.page * self.limit <= usize::MAX),
    {
        let before: usize = if self.page == 0 {
            0
        } else {
            self.page - 1
        };
        assert(before * self.limit + self.limit == (before + 1) * self.limit) by (nonlinear_arith);
        match before.checked_mul(self.limit) {
            Some(offset) => offset.checked_add(self.limit).is_some(),
            None => {
                assert(self.spec_offset() == before * self.limit);
                false
            },
        }
    }

    /// How the page is put together. A search for nothing but white space is
    /// none.
    pub fn plan(&self) -> (r: DidsPlan)
        requires
            self.spec_offset() <= usize::MAX,
        ensures
            r.page == self.spec_page(),
            r.limit == self.limit,
            r.offset == self.spec_offset(),
            self.page == 0 ==> r.page == 1 && r.offset == 0,
            self.page > 0 ==> r.page == self.page && r.offset == (self.page - 1) * self.limit,
            match self.search {
                Some(term) => if text::blank(term@) {
                    r.source is All
                } else {
                    r.source matches DidsSource::Search(t) && t@ == text::trimmed(term@) && t@.len()
                        > 0
                },
                None => r.source is All,
            },
    {
        let page: usize = if self.page == 0 {
            1
        } else {
            self.page
        };
        assert((1 - 1) * self.limit == 0) by (nonlinear_arith);
        assert(self.spec_offset() >= 0) by (nonlinear_arith)
            requires
                self.spec_offset() == (page - 1) * self.limit,
                page >= 1,
        ;
        let offset: usize = (page - 1) * self.limit;
        let source = match &self.search {
            Some(term) => {
                let trimmed = text::trim(term.as_str());
                proof {
                    text::lemma_blank_trims_to_nothing(term@);
                    reveal_strlit("");
                }
                if text::str_eq(trimmed.as_str(), "") {
                    DidsSource::All
                } else {
                    assert(trimmed@.len() > 0) by {
                        if trimmed@.len() == 0 {
                            assert(trimmed@ =~= ""@);
                        }
                    }
                    DidsSource::Search(trimmed)
                }
            },
            None => DidsSource::All,
        };
        DidsPlan { page, limit: self.limit, offset, source }
    }
}

/// Whatever is searched for, as many records come before a page as the pages
/// before it hold: none before the first, and on each page as many as its limit.
/// Who names no page gets the first.
pub proof fn law_offset_follows_the_page(query: DidsQuery, other: DidsQuery)
    requires
        query.page >= 1,
        other.limit == query.limit,
    ensures
        query.spec_page() == query.page,
        query.spec_offset() == (query.page - 1) * query.limit,
        query.page == 1 ==> query.spec_offset() == 0,
        other.page == query.page ==> other.spec_offset() == query.spec_offset(),
        other.page == query.page + 1 ==> other.spec_offset() == query.spec_offset() + query.limit,
        other.page == 0 ==> other.spec_page() == 1 && other.spec_offset() == 0,
{
    assert((query.page + 1 - 1) * query.limit == (query.page - 1) * query.limit + query.limit)
        by (nonlinear_arith);
    assert((1 - 1) * query.limit == 0) by (nonlinear_arith);
}

/// `shown` shows the record.
pub open spec fn shows(shown: DidRecordForDisplay, record: DidRecord) -> bool {
    let doc = record.document_val@;
    &&& shown.did == record.did
    &&& shown.handle@ == document::text_or(document::handle(doc), "N/A"@)
    &&& shown.pds_endpoint@ == document::text_or(document::pds_endpoint(doc), "N/A"@)
    &&& shown.last_seen == record.updated_at
}

/// What is shown of a record is its DID, the first alias of its document where
/// that is a text, where its personal data server is, and when it last changed;
/// of an alias or a server that there is not, that there is none.
pub proof fn law_record_is_shown(shown: DidRecordForDisplay, record: DidRecord)
    requires
        shows(shown, record),
    ensures
        shown.did@ == record.did@,
        shown.last_seen == record.updated_at,
        match document::handle(record.document_val@) {
            Some(name) => shown.handle@ == name,
            None => shown.handle@ == "N/A"@,
        },
        match document::pds_endpoint(record.document_val@) {
            Some(endpoint) => shown.pds_endpoint@ == endpoint,
            None => shown.pds_endpoint@ == "N/A"@,
        },
{
}

/// A record as it is shown.
pub fn display(record: DidRecord) -> (r: DidRecordForDisplay)
    ensures
        shows(r, record),
{
    let handle = document::handle_or(&record.document_val, "N/A");
    let pds_endpoint = document::pds_endpoint_or(&record.document_val, "N/A");
    DidRecordForDisplay { did: record.did, handle, pds_endpoint, last_seen: record.updated_at }
}

/// The total of the DIDs, as the page of the DIDs shows it: none where the
/// totals cannot be had.
pub fn total_of<E>(stats: &Result<Stats, E>) -> (r: usize)
    ensures
        match stats {
            Ok(s) => r == s.total_dids as usize,
            Err(_) => r == 0,
        },
{
    match stats {
        Ok(s) => #[verifier::truncate]
        (s.total_dids as usize),
        Err(_) => 0,
    }
}

impl DidsPlan {
    /// The page of the DIDs, of the records and the total that were found; an
    /// empty one where none could be.
    pub fn page(
        self,
        search: Option<String>,
        found: Option<Vec<DidRecord>>,
        total_found: usize,
    ) -> (r: DidsPartial)
        requires
            self.offset + self.limit <= usize::MAX,
        ensures
            match found {
                Some(list) => {
                    &&& r.dids@.len() == list@.len()
                    &&& forall|i: int|
                        0 <= i < list@.len() ==> shows(#[trigger] r.dids@[i], list@[i])
                },
                None => r.dids@.len() == 0,
            },
            r.search_query == search,
            r.current_page == self.page,
            r.has_next_page == (total_found > self.offset + self.limit),
            r.total_found == total_found,
    {
        let mut dids: Vec<DidRecordForDisplay> = Vec::new();
        if let Some(list) = found {
            let ghost all = list@;
            for record in it: list
                invariant
                    it.seq() == all,
                    dids@.len() == it.index(),
                    forall|i: int|
                        0 <= i < it.index() ==> shows(#[trigger] dids@[i], all[i]),
            {
                dids.push(display(record));
            }
        }
        DidsPartial {
            dids,
            search_query: search,
            current_page: self.page,
            has_next_page: total_found > self.offset + self.limit,
            total_found,
        }
    }
}

/// What is answered to who asks for a DID: its record; that it is gone; that
/// there is none; or that the mirror has failed.
pub open spec fn served<E>(found: Result<Option<DidRecord>, E>) -> Result<DidRecord, u16> {
    match found {
        Ok(Some(record)) => if record.is_tombstoned {
            Err(410)
        } else {
            Ok(record)
        },
        Ok(None) => Err(404),
        Err(_) => Err(500),
    }
}

/// What is answered to who asks for a DID: its record, or a status code.
pub fn resolve_did<E>(found: Result<Option<DidRecord>, E>) -> (r: Result<DidRecord, u16>)
    ensures
        r == served(found),
        r is Ok <==> (found matches Ok(Some(record)) && !record.is_tombstoned),
        r matches Ok(record) ==> found == Ok::<Option<DidRecord>, E>(Some(record)),
{
    match found {
        Ok(Some(record)) => if record.is_tombstoned {
            Err(410)
        } else {
            Ok(record)
        },
        Ok(None) => Err(404),
        Err(_) => Err(500),
    }
}

/// A record is served if and only if it was found and the DID is not gone, and
/// then as it was found. That it is gone is answered for nothing but a DID that
/// is, that there is none for nothing but one that was not found, and that the
/// mirror has failed for nothing but a failure of it.
pub proof fn law_served_or_why_not<E>(found: Result<Option<DidRecord>, E>, record: DidRecord)
    ensures
        served(found) == Ok::<DidRecord, u16>(record) <==> (found == Ok::<
            Option<DidRecord>,
            E,
        >(Some(record)) && !record.is_tombstoned),
        served(found) == Err::<DidRecord, u16>(410) <==> (found matches Ok(Some(gone))
            && gone.is_tombstoned),
        served(found) == Err::<DidRecord, u16>(404) <==> (found matches Ok(none) && none is None),
        served(found) == Err::<DidRecord, u16>(500) <==> found is Err,
{
}

/// What is answered to who asks for a list or for the totals: these, or a
/// status code.
pub fn answer<T, E>(found: Result<T, E>) -> (r: Result<T, u16>)
    ensures
        match found {
            Ok(value) => r == Ok::<T, u16>(value),
            Err(_) => r == Err::<T, u16>(500),
        },
{
    match found {
        Ok(value) => Ok(value),
        Err(_) => Err(500),
    }
}

/// What the mirror takes in it serves. When an operation was taken in for a
/// DID, and the record that follows was written, who asks for the DID is
/// answered with the document that the operation gives it, as it stands since
/// that time; where the operation took it out of use, that it is gone. A
/// document is served where it is read back unchanged from its own text.
pub proof fn law_taken_in_is_served(
    before: Map<(Partition, Seq<u8>), Stored>,
    did: Seq<char>,
    operation: PlcOperation,
    existing: Option<DidRecord>,
    id: u128,
    now: Timestamp,
    record: DidRecord,
    is_new: bool,
    after: Map<(Partition, Seq<u8>), Stored>,
    read: DidRecord,
    found: Result<Option<DidRecord>, DbError>,
)
    requires
        holdings::dids_filed(before),
        match holdings::did_in(before, did) {
            Some(stored) => existing matches Some(e) && holdings::kept(e) == stored && json::parsed(
                stored.document_json_string@,
            ) is Some,
            None => existing is None,
        },
        operation.op_type@ != "plc_tombstone"@ ==> json::reads_back(
            document::did_document(did, operation),
        ),
        database::operation_gives(record, did, operation, existing, id, now),
        store::steps_done(before, database::upsert_did_steps(record, is_new), after),
        holdings::did_in(after, did) == Some(holdings::kept(read)),
        database::did_read(did, Some(Ok(read)), found),
    ensures
        holdings::did_in(after, did) == Some(holdings::kept(record)),
        operation.op_type@ == "plc_tombstone"@ ==> served(found) == Err::<DidRecord, u16>(410),
        operation.op_type@ != "plc_tombstone"@ ==> (served(found) matches Ok(shown) && shown.did@
            == did && shown.updated_at == now && shown.document_val@ == document::did_document(
            did,
            operation,
        )),
{
    holdings::law_did_reads_back(before, record, is_new, after);
    if let Some(stored) = holdings::did_in(before, did) {
        let key = storage_keys::spec_did_key(did);
        assert(before.contains_key((Partition::Dids, key)));
        if stored.did@ != did {
            storage_keys::law_text_keys_differ(did, stored.did@);
        }
    }
}

/// An operation for one DID changes nothing of what is served for another.
pub proof fn law_others_are_served_as_before(
    before: Map<(Partition, Seq<u8>), Stored>,
    record: DidRecord,
    is_new: bool,
    after: Map<(Partition, Seq<u8>), Stored>,
    other: Seq<char>,
)
    requires
        store::steps_done(before, database::upsert_did_steps(record, is_new), after),
        other != record.did@,
    ensures
        holdings::did_in(after, other) == holdings::did_in(before, other),
{
    holdings::law_did_reads_back(before, record, is_new, after);
}

/// The pages of a search follow each other without a gap: a page and the next
/// are one page of twice the size. There is a next page exactly when a record
/// stands on it.
pub proof fn law_pages_follow(
    term: Seq<char>,
    page: int,
    limit: int,
    records: Seq<DidRecord>,
)
    requires
        page >= 1,
        limit >= 0,
    ensures
        ({
            let offset = (page - 1) * limit;
            let this = listing::searched_all(listing::empty_search(term, limit, offset), records);
            let next = listing::searched_all(
                listing::empty_search(term, limit, page * limit),
                records,
            );
            let both = listing::searched_all(
                listing::empty_search(term, limit + limit, offset),
                records,
            );
            &&& this.results + next.results == both.results
            &&& limit > 0 ==> (listing::counted(term, records) > offset + limit
                <==> next.results.len() > 0)
        }),
{
    let offset = (page - 1) * limit;
    assert(offset >= 0 && offset + limit == page * limit) by (nonlinear_arith)
        requires
            offset == (page - 1) * limit,
            page >= 1,
            limit >= 0,
    ;
    listing::law_search_pages_join(term, limit, limit, offset, records);
    listing::law_search(term, limit, page * limit, records);
    listing::law_count_matches_search(term, limit, page * limit, records);
}

/// The pages that are planned for a query and for the next page of it are the
/// ones that follow each other: together they are one page of twice the size
/// from where the first begins.
pub proof fn law_planned_pages_follow(
    query: DidsQuery,
    next: DidsQuery,
    term: Seq<char>,
    records: Seq<DidRecord>,
)
    requires
        query.page >= 1,
        next.page == query.page + 1,
        next.limit == query.limit,
    ensures
        ({
            let limit = query.limit as int;
            let this = listing::searched_all(
                listing::empty_search(term, limit, query.spec_offset()),
                records,
            );
            let following = listing::searched_all(
                listing::empty_search(term, limit, next.spec_offset()),
                records,
            );
            let both = listing::searched_all(
                listing::empty_search(term, limit + limit, (query.page - 1) * limit),
                records,
            );
            &&& this.results + following.results == both.results
            &&& limit > 0 ==> (listing::counted(term, records) > query.spec_offset() + limit
                <==> following.results.len() > 0)
        }),
{
    law_offset_follows_the_page(query, next);
    law_pages_follow(term, query.page as int, query.limit as int, records);
    assert(query.page * query.limit == (query.page - 1) * query.limit + query.limit)
        by (nonlinear_arith);
}

} // verus!
