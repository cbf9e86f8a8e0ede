//! A bounded table of lazily allocated, fixed-size pages, addressed by row
//! index.

use vstd::prelude::*;

use crate::layout::{
    lemma_row_slot_in_bounds, lemma_row_slots_disjoint, offset_of, page_of, row_slot, PAGE_SIZE,
    ROW_SIZE, TABLE_MAX_PAGES, TABLE_MAX_ROWS,
};

verus! {

/// One slot per page number; `None` until a row is first written there.
pub struct PageStore {
    pages: Vec<Option<Vec<u8>>>,
}

impl View for PageStore {
    type V = Seq<Option<Seq<u8>>>;

    closed spec fn view(&self) -> Seq<Option<Seq<u8>>> {
        self.pages@.map_values(|p: Option<Vec<u8>>|
            match p {
                Some(v) => Some(v@),
                None => None,
            }
        )
    }
}

/// Whether the page that holds row `i` has been allocated.
pub open spec fn row_allocated(pages: Seq<Option<Seq<u8>>>, i: int) -> bool {
    pages[page_of(i)] is Some
}

/// The bytes of row `i`, read from its page.
pub open spec fn row_bytes(pages: Seq<Option<Seq<u8>>>, i: int) -> Seq<u8> {
    pages[page_of(i)]->Some_0.subrange(offset_of(i), offset_of(i) + ROW_SIZE)
}

/// `after` is `before` with `bytes` written as row `i`: the row's page is
/// allocated and page-sized, holds `bytes` in the row's slot and elsewhere
/// what it held before (zero bytes where it was newly allocated), and every
/// other page is as it was.
pub open spec fn row_written(
    before: Seq<Option<Seq<u8>>>,
    after: Seq<Option<Seq<u8>>>,
    i: int,
    bytes: Seq<u8>,
) -> bool {
    let p = page_of(i);
    let page = after[p]->Some_0;
    &&& after.len() == before.len()
    &&& forall|q: int| 0 <= q < after.len() && q != p ==> #[trigger] after[q] == before[q]
    &&& after[p] is Some
    &&& page.len() == PAGE_SIZE
    &&& page.subrange(offset_of(i), offset_of(i) + ROW_SIZE) == bytes
    &&& forall|k: int|
        0 <= k < PAGE_SIZE && !(offset_of(i) <= k < offset_of(i) + ROW_SIZE) ==> #[trigger] page[k]
            == if before[p] is Some {
            before[p]->Some_0[k]
        } else {
            0u8
        }
}

impl PageStore {
    /// There is one slot per page, and every allocated page is page-sized.
    pub open spec fn wf(&self) -> bool {
        &&& self@.len() == TABLE_MAX_PAGES
        &&& forall|p: int| 0 <= p < self@.len() && (#[trigger] self@[p]) is Some ==> self@[p]->Some_0.len() == PAGE_SIZE
    }

    /// A store with no page allocated.
    pub fn new() -> (s: PageStore)
        ensures
            s.wf(),
            forall|p: int| 0 <= p < TABLE_MAX_PAGES ==> (#[trigger] s@[p]) is None,
    {
        let mut pages: Vec<Option<Vec<u8>>> = Vec::with_capacity(TABLE_MAX_PAGES);
        let mut i: usize = 0;
        while i < TABLE_MAX_PAGES
            invariant
                i <= TABLE_MAX_PAGES,
                pages@.len() == i,
                forall|p: int| 0 <= p < i ==> (#[trigger] pages@[p]) is None,
            decreases TABLE_MAX_PAGES - i,
        {
            pages.push(None);
            i = i + 1;
        }
        PageStore { pages }
    }

    /// Writes `bytes` as row `row_index`, allocating its page first if needed
    /// and no other. No other row's bytes change.
    pub fn write_row(&mut self, row_index: usize, bytes: &[u8])
        requires
            old(self).wf(),
            row_index < TABLE_MAX_ROWS,
            bytes@.len() == ROW_SIZE,
        ensures
            final(self).wf(),
            row_written(old(self)@, final(self)@, row_index as int, bytes@),
            row_allocated(final(self)@, row_index as int),
            row_bytes(final(self)@, row_index as int) == bytes@,
            forall|p: int| 0 <= p < TABLE_MAX_PAGES && p != page_of(row_index as int) ==> #[trigger] final(self)@[p] == old(self)@[p],
            forall|p: int| 0 <= p < TABLE_MAX_PAGES && (#[trigger] old(self)@[p]) is Some ==> final(self)@[p] is Some,
            forall|j: int|
                0 <= j < TABLE_MAX_ROWS && j != row_index && row_allocated(old(self)@, j) ==> #[trigger] row_bytes(final(self)@, j) == row_bytes(old(self)@, j),
    {
        let (page_num, offset) = row_slot(row_index);
        let mut slot: Option<Vec<u8>> = None;
        std::mem::swap(&mut self.pages[page_num], &mut slot);
        let mut page: Vec<u8> = match slot {
            Some(p) => p,
            None => {
                let mut fresh: Vec<u8> = Vec::with_capacity(PAGE_SIZE);
                let mut k: usize = 0;
                while k < PAGE_SIZE
                    invariant
                        k <= PAGE_SIZE,
                        fresh@.len() == k,
                        forall|m: int| 0 <= m < k ==> fresh@[m] == 0u8,
                    decreases PAGE_SIZE - k,
                {
                    fresh.push(0u8);
                    k = k + 1;
                }
                fresh
            },
        };
        let ghost before = page@;
        let ghost old_slot = old(self)@[page_num as int];
        assert(before.len() == PAGE_SIZE) by {
            assert(old_slot is Some ==> old_slot->Some_0.len() == PAGE_SIZE);
        }
        assert(forall|m: int| 0 <= m < PAGE_SIZE ==> before[m] == if old_slot is Some {
            old_slot->Some_0[m]
        } else {
            0u8
        });
        let mut k: usize = 0;
        while k < ROW_SIZE
            invariant
                k <= ROW_SIZE,
                offset + ROW_SIZE <= PAGE_SIZE,
                bytes@.len() == ROW_SIZE,
                page@.len() == PAGE_SIZE,
                before.len() == PAGE_SIZE,
                forall|m: int| 0 <= m < k ==> page@[offset + m] == bytes@[m],
                forall|m: int| 0 <= m < PAGE_SIZE && !(offset <= m < offset + k) ==> page@[m] == before[m],
            decreases ROW_SIZE - k,
        {
            page.set(offset + k, bytes[k]);
            k = k + 1;
        }
        assert(page@.subrange(offset as int, offset + ROW_SIZE) =~= bytes@);
        self.pages.set(page_num, Some(page));
        proof {
            let old_v = old(self)@;
            let new_v = self@;
            assert(new_v =~= old_v.update(page_num as int, Some(page@)));
            assert(new_v[page_num as int] == Some(page@));
            assert(forall|m: int| 0 <= m < PAGE_SIZE && !(offset <= m < offset + ROW_SIZE) ==> #[trigger] page@[m] == before[m]);
            assert(row_written(old_v, new_v, row_index as int, bytes@));
            assert forall|j: int|
                0 <= j < TABLE_MAX_ROWS && j != row_index && row_allocated(old_v, j) implies #[trigger] row_bytes(new_v, j) == row_bytes(old_v, j) by {
                lemma_row_slot_in_bounds(j);
                if page_of(j) == page_num as int {
                    lemma_row_slots_disjoint(j, row_index as int);
                    assert(row_bytes(new_v, j) =~= row_bytes(old_v, j));
                }
            }
        }
    }

    /// The bytes of row `row_index`, whose page must have been written.
    pub fn read_row(&self, row_index: usize) -> (b: Vec<u8>)
        requires
            self.wf(),
            row_index < TABLE_MAX_ROWS,
            row_allocated(self@, row_index as int),
        ensures
            b@ == row_bytes(self@, row_index as int),
            b@.len() == ROW_SIZE,
    {
        let (page_num, offset) = row_slot(row_index);
        let mut b: Vec<u8> = Vec::with_capacity(ROW_SIZE);
        match &self.pages[page_num] {
            Some(page) => {
                assert(self@[page_num as int] == Some(page@));
                assert(page@.len() == PAGE_SIZE);
                let mut k: usize = 0;
                while k < ROW_SIZE
                    invariant
                        k <= ROW_SIZE,
                        offset + ROW_SIZE <= PAGE_SIZE,
                        page@.len() == PAGE_SIZE,
                        b@ == page@.subrange(offset as int, offset + k),
                    decreases ROW_SIZE - k,
                {
                    b.push(page[offset + k]);
                    k = k + 1;
                    assert(b@ =~= page@.subrange(offset as int, offset + k));
                }
            },
            None => {},
        }
        b
    }
}

} // verus!
