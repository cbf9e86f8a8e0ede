//! A fixed-schema, page-backed table store with a two-statement command
//! pipeline: records are laid out byte-exactly in fixed-size pages, appended
//! by `insert` and scanned in order by `select`.

mod layout;
mod pager;
mod row;
mod shell;
mod statement;
mod table;

pub use layout::{
    lemma_row_slots_disjoint, row_slot, COLUMN_EMAIL_SIZE, COLUMN_USERNAME_SIZE, EMAIL_OFFSET,
    ID_OFFSET, ID_SIZE, PAGE_SIZE, ROWS_PER_PAGE, ROW_SIZE, TABLE_MAX_PAGES, TABLE_MAX_ROWS,
    USER_NAME_OFFSET,
};
pub use pager::PageStore;
pub use row::{deserialize_row, lemma_round_trip, serialize_row, Row, RowModel};
pub use shell::{format_row, lemma_select_repeatable, process_line, Reply, ReplyModel};
pub use statement::{
    do_meta_command, execute_statement, parse_id, prepare_statement, split_tokens, ExecuteResult,
    InputBuffer, MetaCommandResult, PrepareResult, Statement, StatementType,
};
pub use table::{lemma_inserts_are_kept, InsertResult, Table};
