//! The fixed geometry of rows and pages, and where each row index lives.

use vstd::prelude::*;

verus! {

pub const ID_SIZE: usize = 4;

pub const COLUMN_USERNAME_SIZE: usize = 32;

pub const COLUMN_EMAIL_SIZE: usize = 255;

pub const ID_OFFSET: usize = 0;

pub const USER_NAME_OFFSET: usize = ID_OFFSET + ID_SIZE;

pub const EMAIL_OFFSET: usize = USER_NAME_OFFSET + COLUMN_USERNAME_SIZE;

/// Width in bytes of one serialized record.
pub const ROW_SIZE: usize = ID_SIZE + COLUMN_USERNAME_SIZE + COLUMN_EMAIL_SIZE;

pub const PAGE_SIZE: usize = 4096;

pub const TABLE_MAX_PAGES: usize = 100;

/// Whole records per page; a record never straddles two pages.
pub const ROWS_PER_PAGE: usize = PAGE_SIZE / ROW_SIZE;

pub const TABLE_MAX_ROWS: usize = ROWS_PER_PAGE * TABLE_MAX_PAGES;

/// The page that holds row `i`.
pub open spec fn page_of(i: int) -> int {
    i / ROWS_PER_PAGE as int
}

/// The byte offset of row `i` inside its page.
pub open spec fn offset_of(i: int) -> int {
    (i % ROWS_PER_PAGE as int) * ROW_SIZE as int
}

/// The geometry constants, as plain numbers.
pub proof fn lemma_geometry()
    ensures
        ROW_SIZE == 291,
        ROWS_PER_PAGE == 14,
        TABLE_MAX_ROWS == 1400,
        EMAIL_OFFSET + COLUMN_EMAIL_SIZE == ROW_SIZE,
{
}

/// Every row index below the table's capacity lies in one of its pages, and
/// its whole record fits inside that page.
pub proof fn lemma_row_slot_in_bounds(i: int)
    requires
        0 <= i < TABLE_MAX_ROWS,
    ensures
        0 <= page_of(i) < TABLE_MAX_PAGES,
        0 <= offset_of(i),
        offset_of(i) + ROW_SIZE <= PAGE_SIZE,
{
    lemma_geometry();
    assert(0 <= i / 14 < 100) by (nonlinear_arith)
        requires
            0 <= i < 1400,
    ;
    assert(0 <= (i % 14) * 291 && (i % 14) * 291 + 291 <= 4096) by (nonlinear_arith)
        requires
            0 <= i,
    ;
}

/// Two distinct row indices never share bytes: either they live in different
/// pages, or their byte ranges inside the common page are disjoint.
pub proof fn lemma_row_slots_disjoint(i: int, j: int)
    requires
        0 <= i < TABLE_MAX_ROWS,
        0 <= j < TABLE_MAX_ROWS,
        i != j,
    ensures
        page_of(i) != page_of(j) || offset_of(i) + ROW_SIZE <= offset_of(j) || offset_of(j)
            + ROW_SIZE <= offset_of(i),
{
    lemma_geometry();
    if page_of(i) == page_of(j) {
        assert(i % 14 != j % 14) by (nonlinear_arith)
            requires
                i / 14 == j / 14,
                i != j,
                0 <= i,
                0 <= j,
        ;
        assert((i % 14) * 291 + 291 <= (j % 14) * 291 || (j % 14) * 291 + 291 <= (i % 14) * 291)
            by (nonlinear_arith)
            requires
                i % 14 != j % 14,
        ;
    }
}

/// Where row `row_index` lives: its page number and its byte offset there.
pub fn row_slot(row_index: usize) -> (r: (usize, usize))
    requires
        row_index < TABLE_MAX_ROWS,
    ensures
        r.0 as int == page_of(row_index as int),
        r.1 as int == offset_of(row_index as int),
        r.0 < TABLE_MAX_PAGES,
        r.1 + ROW_SIZE <= PAGE_SIZE,
{
    proof {
        lemma_row_slot_in_bounds(row_index as int);
    }
    (row_index / ROWS_PER_PAGE, (row_index % ROWS_PER_PAGE) * ROW_SIZE)
}

} // verus!
