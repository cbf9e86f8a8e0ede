//! The append-only table: a row count over the page store.

use vstd::prelude::*;

use crate::layout::{lemma_row_slot_in_bounds, page_of, TABLE_MAX_PAGES, TABLE_MAX_ROWS};
use crate::pager::{row_allocated, row_bytes, row_written, PageStore};
use crate::row::{
    deserialize_row, deserialized, lemma_round_trip, row_well_formed, serialize_row, serialized, Row,
    RowModel,
};

verus! {

/// How an insert ended.
#[derive(Debug, PartialEq, Eq, Structural)]
pub enum InsertResult {
    Inserted,
    TableFull,
}

/// The records, in insertion order, backed by pages.
pub struct Table {
    num_rows: usize,
    pages: PageStore,
}

impl View for Table {
    type V = Seq<RowModel>;

    /// Row `i` is what the bytes stored for row `i` deserialize to.
    closed spec fn view(&self) -> Seq<RowModel> {
        Seq::new(self.num_rows as nat, |i: int| deserialized(row_bytes(self.pages@, i)))
    }
}

/// What an insert of `r` does to the records `rows`: it appends `r` unless
/// the table is at capacity.
pub open spec fn after_insert(rows: Seq<RowModel>, r: RowModel) -> Seq<RowModel> {
    if rows.len() < TABLE_MAX_ROWS {
        rows.push(r)
    } else {
        rows
    }
}

/// The records after inserting each of `rs` in turn into an empty table.
pub open spec fn after_inserts(rs: Seq<RowModel>) -> Seq<RowModel>
    decreases rs.len(),
{
    if rs.len() == 0 {
        Seq::empty()
    } else {
        after_insert(after_inserts(rs.drop_last()), rs.last())
    }
}

/// Inserting up to the table's capacity of records into an empty table keeps
/// all of them, in the order they were inserted, so a scan returns exactly
/// them.
pub proof fn lemma_inserts_are_kept(rs: Seq<RowModel>)
    requires
        rs.len() <= TABLE_MAX_ROWS,
    ensures
        after_inserts(rs) == rs,
    decreases rs.len(),
{
    if rs.len() > 0 {
        lemma_inserts_are_kept(rs.drop_last());
        assert(rs.drop_last().push(rs.last()) =~= rs);
    }
}

/// Whether no page of `pages` is allocated.
pub open spec fn no_page_allocated(pages: Seq<Option<Seq<u8>>>) -> bool {
    pages.len() == TABLE_MAX_PAGES && forall|p: int| 0 <= p < TABLE_MAX_PAGES ==> (#[trigger] pages[p]) is None
}

impl Table {
    /// The table's pages, one slot per page number.
    pub closed spec fn pages_view(&self) -> Seq<Option<Seq<u8>>> {
        self.pages@
    }

    pub closed spec fn wf(&self) -> bool {
        &&& self.pages.wf()
        &&& self.num_rows <= TABLE_MAX_ROWS
        &&& forall|i: int| 0 <= i < self.num_rows ==> #[trigger] row_allocated(self.pages@, i)
    }

    /// An empty table, with no page allocated.
    pub fn new() -> (t: Table)
        ensures
            t.wf(),
            t@ == Seq::<RowModel>::empty(),
            no_page_allocated(t.pages_view()),
    {
        let t = Table { num_rows: 0, pages: PageStore::new() };
        assert(t@ =~= Seq::<RowModel>::empty());
        t
    }

    /// The number of records held.
    pub fn num_rows(&self) -> (n: usize)
        requires
            self.wf(),
        ensures
            n == self@.len(),
            n <= TABLE_MAX_ROWS,
    {
        self.num_rows
    }

    /// Appends `row` as the last record: its serialized bytes go to its slot,
    /// allocating that row's page if needed, and no earlier row's bytes
    /// change. When the table is at capacity it reports `TableFull` and
    /// changes nothing.
    pub fn insert(&mut self, row: &Row) -> (r: InsertResult)
        requires
            old(self).wf(),
            row_well_formed(row@),
        ensures
            final(self).wf(),
            final(self)@ == after_insert(old(self)@, row@),
            r == (if old(self)@.len() < TABLE_MAX_ROWS {
                InsertResult::Inserted
            } else {
                InsertResult::TableFull
            }),
            old(self)@.len() >= TABLE_MAX_ROWS ==> *final(self) == *old(self),
            old(self)@.len() < TABLE_MAX_ROWS ==> {
                &&& row_written(
                    old(self).pages_view(),
                    final(self).pages_view(),
                    old(self)@.len() as int,
                    serialized(row@),
                )
                &&& forall|j: int|
                    0 <= j < old(self)@.len() ==> #[trigger] row_bytes(final(self).pages_view(), j)
                        == row_bytes(old(self).pages_view(), j)
            },
    {
        if self.num_rows >= TABLE_MAX_ROWS {
            return InsertResult::TableFull;
        }
        let bytes = serialize_row(row);
        proof {
            lemma_round_trip(row@);
        }
        let ghost old_pages = self.pages@;
        let n = self.num_rows;
        self.pages.write_row(n, bytes.as_slice());
        self.num_rows = n + 1;
        proof {
            assert forall|i: int| 0 <= i < self.num_rows implies #[trigger] row_allocated(self.pages@, i) by {
                if i < n {
                    lemma_row_slot_in_bounds(i);
                    assert(row_allocated(old_pages, i));
                    assert(old_pages[page_of(i)] is Some);
                }
            }
            assert forall|i: int| 0 <= i < n implies #[trigger] row_bytes(self.pages@, i) == row_bytes(old_pages, i) by {
                assert(row_allocated(old_pages, i));
            }
            assert(self@ =~= old(self)@.push(row@));
        }
        InsertResult::Inserted
    }

    /// All records, from the first inserted to the last.
    pub fn select(&self) -> (rows: Vec<Row>)
        requires
            self.wf(),
        ensures
            rows@.map_values(|r: Row| r@) == self@,
    {
        let mut rows: Vec<Row> = Vec::new();
        let mut i: usize = 0;
        while i < self.num_rows
            invariant
                self.wf(),
                i <= self.num_rows,
                rows@.map_values(|r: Row| r@) == self@.take(i as int),
            decreases self.num_rows - i,
        {
            assert(row_allocated(self.pages@, i as int));
            let bytes = self.pages.read_row(i);
            let row = deserialize_row(bytes.as_slice());
            let ghost prev = rows@;
            rows.push(row);
            assert(rows@.map_values(|r: Row| r@) =~= prev.map_values(|r: Row| r@).push(row@));
            i = i + 1;
            assert(self@.take(i as int) =~= self@.take(i - 1).push(self@[i - 1]));
        }
        assert(self@.take(i as int) =~= self@);
        rows
    }
}

impl Default for Table {
    fn default() -> (t: Table)
        ensures
            t.wf(),
            t@ == Seq::<RowModel>::empty(),
            no_page_allocated(t.pages_view()),
    {
        Table::new()
    }
}

} // verus!
