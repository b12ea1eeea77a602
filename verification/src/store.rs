//! The table of results: one row for each domain, and the first row written
//! for a domain is the one that stays.

use crate::record::{RecordView, ResponseData, StoredRecord, insert_request};
use vstd::prelude::*;

verus! {

/// Whether `rows` has a row for `domain`.
pub open spec fn holds(rows: Seq<RecordView>, domain: Seq<char>) -> bool {
    exists|i: int| 0 <= i < rows.len() && (#[trigger] rows[i]).domain == domain
}

/// Whether the first row that `rows` has for `domain` stands at place `i`.
pub open spec fn first_at(rows: Seq<RecordView>, domain: Seq<char>, i: int) -> bool {
    &&& 0 <= i < rows.len()
    &&& rows[i].domain == domain
    &&& forall|k: int| 0 <= k < i ==> (#[trigger] rows[k]).domain != domain
}

/// The number of rows that `rows` has for `domain`.
pub open spec fn count(rows: Seq<RecordView>, domain: Seq<char>) -> nat
    decreases rows.len(),
{
    if rows.len() == 0 {
        0
    } else {
        count(rows.drop_last(), domain) + if rows.last().domain == domain {
            1nat
        } else {
            0nat
        }
    }
}

/// No two rows of `rows` are for the same domain.
pub open spec fn distinct_domains(rows: Seq<RecordView>) -> bool {
    forall|i: int, j: int|
        0 <= i < j < rows.len() ==> (#[trigger] rows[i]).domain != (#[trigger] rows[j]).domain
}

/// Inserting `row` where a conflict does nothing: the table as it was if it
/// has a row for that domain, and with `row` behind the others if not.
pub open spec fn upsert(rows: Seq<RecordView>, row: RecordView) -> Seq<RecordView> {
    if holds(rows, row.domain) {
        rows
    } else {
        rows.push(row)
    }
}

/// The row under which the outcome of probing `domain` is stored.
pub open spec fn stored_view(domain: Seq<char>, data: Option<ResponseData>) -> RecordView {
    match data {
        Some(d) => crate::record::row_of(domain, d@),
        None => crate::record::failure_view(domain),
    }
}

/// A table without a row for `domain` has none to count.
pub proof fn lemma_count_absent(rows: Seq<RecordView>, domain: Seq<char>)
    requires
        !holds(rows, domain),
    ensures
        count(rows, domain) == 0,
    decreases rows.len(),
{
    if rows.len() > 0 {
        assert(rows[rows.len() - 1].domain != domain);
        assert forall|i: int| 0 <= i < rows.drop_last().len() implies (#[trigger] rows.drop_last()[i]).domain
            != domain by {
            assert(rows[i].domain != domain);
        }
        lemma_count_absent(rows.drop_last(), domain);
    }
}

/// In a table whose rows are for distinct domains, a domain that has a row
/// has exactly one.
pub proof fn lemma_count_present(rows: Seq<RecordView>, domain: Seq<char>)
    requires
        distinct_domains(rows),
        holds(rows, domain),
    ensures
        count(rows, domain) == 1,
    decreases rows.len(),
{
    let k = choose|i: int| 0 <= i < rows.len() && (#[trigger] rows[i]).domain == domain;
    let front = rows.drop_last();
    assert forall|i: int, j: int| 0 <= i < j < front.len() implies (#[trigger] front[i]).domain != (
    #[trigger] front[j]).domain by {
        assert(rows[i].domain != rows[j].domain);
    }
    if k == rows.len() - 1 {
        assert forall|i: int| 0 <= i < front.len() implies (#[trigger] front[i]).domain != domain by {
            assert(rows[i].domain != rows[k].domain);
        }
        lemma_count_absent(front, domain);
    } else {
        assert(rows[k].domain != rows[rows.len() - 1].domain);
        assert(front[k].domain == domain);
        lemma_count_present(front, domain);
    }
}

/// Storing keeps the rows for distinct domains.
pub proof fn lemma_upsert_distinct(rows: Seq<RecordView>, row: RecordView)
    requires
        distinct_domains(rows),
    ensures
        distinct_domains(upsert(rows, row)),
{
    if !holds(rows, row.domain) {
        let next = rows.push(row);
        assert forall|i: int, j: int| 0 <= i < j < next.len() implies (#[trigger] next[i]).domain != (
        #[trigger] next[j]).domain by {
            if j < rows.len() {
                assert(rows[i].domain != rows[j].domain);
            } else {
                assert(rows[i].domain != row.domain);
            }
        }
    }
}

/// After a row for a domain was stored the table has exactly one row for
/// that domain, whether or not it had one before.
pub proof fn lemma_upsert_one_row(rows: Seq<RecordView>, row: RecordView)
    requires
        distinct_domains(rows),
    ensures
        count(upsert(rows, row), row.domain) == 1,
{
    lemma_upsert_distinct(rows, row);
    let next = upsert(rows, row);
    if !holds(rows, row.domain) {
        assert(next[rows.len() as int].domain == row.domain);
    }
    lemma_count_present(next, row.domain);
}

/// Storing never changes or removes a row that the table has.
pub proof fn lemma_upsert_keeps_rows(rows: Seq<RecordView>, row: RecordView)
    ensures
        rows.len() <= upsert(rows, row).len(),
        forall|i: int| 0 <= i < rows.len() ==> upsert(rows, row)[i] == rows[i],
{
}

/// The first row stored for a domain stays: a later row for the same domain,
/// whatever it holds, leaves the table as it is.
pub proof fn lemma_first_write_wins(rows: Seq<RecordView>, first: RecordView, later: RecordView)
    requires
        first.domain == later.domain,
    ensures
        upsert(upsert(rows, first), later) == upsert(rows, first),
{
    let next = upsert(rows, first);
    if !holds(rows, first.domain) {
        assert(next[rows.len() as int].domain == later.domain);
    }
    assert(holds(next, later.domain));
}

/// Rows for different domains can be stored in either order: the table ends
/// with the same rows, up to their order.
pub proof fn lemma_upsert_commutes(rows: Seq<RecordView>, a: RecordView, b: RecordView)
    requires
        a.domain != b.domain,
    ensures
        upsert(upsert(rows, a), b).to_multiset() == upsert(upsert(rows, b), a).to_multiset(),
{
    broadcast use vstd::seq_lib::group_to_multiset_ensures;

    let ra = upsert(rows, a);
    let rb = upsert(rows, b);
    assert(holds(ra, b.domain) <==> holds(rows, b.domain)) by {
        if holds(ra, b.domain) {
            let k = choose|i: int| 0 <= i < ra.len() && (#[trigger] ra[i]).domain == b.domain;
            assert(k < rows.len());
            assert(rows[k].domain == b.domain);
        }
        if holds(rows, b.domain) {
            let k = choose|i: int| 0 <= i < rows.len() && (#[trigger] rows[i]).domain == b.domain;
            assert(ra[k].domain == b.domain);
        }
    }
    assert(holds(rb, a.domain) <==> holds(rows, a.domain)) by {
        if holds(rb, a.domain) {
            let k = choose|i: int| 0 <= i < rb.len() && (#[trigger] rb[i]).domain == a.domain;
            assert(k < rows.len());
            assert(rows[k].domain == a.domain);
        }
        if holds(rows, a.domain) {
            let k = choose|i: int| 0 <= i < rows.len() && (#[trigger] rows[i]).domain == a.domain;
            assert(rb[k].domain == a.domain);
        }
    }
    if !holds(rows, a.domain) && !holds(rows, b.domain) {
        assert(rows.push(a).push(b).to_multiset() =~= rows.push(b).push(a).to_multiset());
    }
}

/// What became of a row handed to the table.
#[derive(Clone, Copy, Debug, PartialEq, Eq, Structural)]
pub enum StoreOutcome {
    /// The domain had no row and has this one now.
    Stored,
    /// The domain had a row already, and the table is as it was.
    Ignored,
}

/// A table of results held in memory, in the order in which the rows came.
#[derive(Clone, Debug, PartialEq, Eq)]
pub struct RecordTable {
    rows: Vec<StoredRecord>,
}

impl View for RecordTable {
    type V = Seq<RecordView>;

    closed spec fn view(&self) -> Seq<RecordView> {
        Seq::new(self.rows@.len(), |i: int| self.rows@[i]@)
    }
}

impl RecordTable {
    /// The invariant of the table: no domain has two rows.
    pub open spec fn wf(&self) -> bool {
        distinct_domains(self@)
    }

    /// A table without rows.
    pub fn new() -> (table: RecordTable)
        ensures
            table@ == Seq::<RecordView>::empty(),
            table.wf(),
    {
        let table = RecordTable { rows: Vec::new() };
        assert(table@ =~= Seq::<RecordView>::empty());
        table
    }

    /// The number of rows.
    pub fn len(&self) -> (n: usize)
        ensures
            n == self@.len(),
    {
        self.rows.len()
    }

    /// The place of the row for `domain`, if the table has one.
    pub fn position(&self, domain: &String) -> (found: Option<usize>)
        ensures
            found is Some <==> holds(self@, domain@),
            found matches Some(i) ==> first_at(self@, domain@, i as int),
    {
        let mut i: usize = 0;
        while i < self.rows.len()
            invariant
                i <= self.rows@.len(),
                self@.len() == self.rows@.len(),
                forall|k: int| 0 <= k < i ==> (#[trigger] self@[k]).domain != domain@,
            decreases self.rows@.len() - i,
        {
            assert(self@[i as int] == self.rows@[i as int]@);
            if self.rows[i].domain == *domain {
                return Some(i);
            }
            i += 1;
        }
        None
    }

    /// The row for `domain`, if the table has one.
    pub fn get(&self, domain: &String) -> (found: Option<&StoredRecord>)
        ensures
            found is Some <==> holds(self@, domain@),
            found matches Some(row) ==> exists|i: int|
                #[trigger] first_at(self@, domain@, i) && self@[i] == row@,
    {
        match self.position(domain) {
            Some(i) => {
                assert(self@[i as int] == self.rows@[i as int]@);
                assert(first_at(self@, domain@, i as int));
                Some(&self.rows[i])
            },
            None => None,
        }
    }

    /// Inserts `record` unless the table has a row for its domain; a
    /// conflict changes nothing.
    pub fn insert(&mut self, record: StoredRecord) -> (outcome: StoreOutcome)
        requires
            old(self).wf(),
        ensures
            final(self).wf(),
            final(self)@ == upsert(old(self)@, record@),
            outcome == if holds(old(self)@, record.domain@) {
                StoreOutcome::Ignored
            } else {
                StoreOutcome::Stored
            },
    {
        proof {
            lemma_upsert_distinct(self@, record@);
        }
        match self.position(&record.domain) {
            Some(_) => StoreOutcome::Ignored,
            None => {
                let ghost before = self@;
                self.rows.push(record);
                assert(self@ =~= before.push(record@));
                StoreOutcome::Stored
            },
        }
    }

    /// Stores what probing `domain` gave: the row of [`insert_request`],
    /// unless the domain has a row already.
    pub fn store(&mut self, domain: String, data: Option<ResponseData>) -> (outcome: StoreOutcome)
        requires
            old(self).wf(),
        ensures
            final(self).wf(),
            final(self)@ == upsert(old(self)@, stored_view(domain@, data)),
            outcome == if holds(old(self)@, domain@) {
                StoreOutcome::Ignored
            } else {
                StoreOutcome::Stored
            },
            count(final(self)@, domain@) == 1,
    {
        let request = insert_request(domain, data);
        let outcome = self.insert(request.record);
        proof {
            lemma_upsert_one_row(old(self)@, request.record@);
        }
        outcome
    }
}

} // verus!
