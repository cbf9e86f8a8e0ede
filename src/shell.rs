//! What the command loop decides for one line: the reply to show, and the
//! table's next state. Reading lines and printing replies is left to the
//! caller.

use vstd::prelude::*;

use crate::layout::TABLE_MAX_ROWS;
use crate::row::{Row, RowModel};
use crate::statement::{
    do_meta_command, execute_statement, exit_word, insert_row, is_insert_line, prepare_statement,
    prepared, select_word, ExecuteResult, InputBuffer, MetaCommandResult, PrepareResult, Statement,
};
use crate::table::{after_insert, Table};

verus! {

/// The outcome of one command line.
pub enum Reply {
    /// `.exit`: close down.
    Exit,
    UnrecognizedMetaCommand,
    SyntaxError,
    FieldTooLong,
    UnrecognizedStatement,
    TableFull,
    /// The statement ran; these are the records it produced.
    Executed(Vec<Row>),
}

pub enum ReplyModel {
    Exit,
    UnrecognizedMetaCommand,
    SyntaxError,
    FieldTooLong,
    UnrecognizedStatement,
    TableFull,
    Executed(Seq<RowModel>),
}

impl View for Reply {
    type V = ReplyModel;

    open spec fn view(&self) -> ReplyModel {
        match self {
            Reply::Exit => ReplyModel::Exit,
            Reply::UnrecognizedMetaCommand => ReplyModel::UnrecognizedMetaCommand,
            Reply::SyntaxError => ReplyModel::SyntaxError,
            Reply::FieldTooLong => ReplyModel::FieldTooLong,
            Reply::UnrecognizedStatement => ReplyModel::UnrecognizedStatement,
            Reply::TableFull => ReplyModel::TableFull,
            Reply::Executed(rows) => ReplyModel::Executed(rows@.map_values(|r: Row| r@)),
        }
    }
}

/// Lines that begin with `.` are meta-commands.
pub open spec fn is_meta_line(line: Seq<u8>) -> bool {
    line.len() > 0 && line[0] == 46
}

/// The records after running `line` against `rows`: only an insert that
/// prepares cleanly changes them.
pub open spec fn line_effect(rows: Seq<RowModel>, line: Seq<u8>) -> Seq<RowModel> {
    if !is_meta_line(line) && prepared(line) == PrepareResult::PrepareSuccess && is_insert_line(
        line,
    ) {
        after_insert(rows, insert_row(line))
    } else {
        rows
    }
}

/// The reply to `line` when the table holds `rows`.
pub open spec fn line_reply(rows: Seq<RowModel>, line: Seq<u8>) -> ReplyModel {
    if is_meta_line(line) {
        if line == exit_word() {
            ReplyModel::Exit
        } else {
            ReplyModel::UnrecognizedMetaCommand
        }
    } else {
        match prepared(line) {
            PrepareResult::PrepareSyntaxError => ReplyModel::SyntaxError,
            PrepareResult::PrepareFieldTooLong => ReplyModel::FieldTooLong,
            PrepareResult::PrepareUnrecognizedStatement => ReplyModel::UnrecognizedStatement,
            PrepareResult::PrepareSuccess => if is_insert_line(line) {
                if rows.len() < TABLE_MAX_ROWS {
                    ReplyModel::Executed(Seq::empty())
                } else {
                    ReplyModel::TableFull
                }
            } else {
                ReplyModel::Executed(rows)
            },
        }
    }
}

/// A `select` changes no record, so running it again with nothing in between
/// gives the same reply.
pub proof fn lemma_select_repeatable(rows: Seq<RowModel>, line: Seq<u8>)
    requires
        line == select_word(),
    ensures
        line_effect(rows, line) == rows,
        line_reply(line_effect(rows, line), line) == line_reply(rows, line),
        line_reply(rows, line) == ReplyModel::Executed(rows),
{
    assert(!is_insert_line(line)) by {
        assert(line.take(6)[2] != 115u8);
    }
}

/// Runs one command line against `table`.
pub fn process_line(table: &mut Table, input_buffer: &mut InputBuffer) -> (r: Reply)
    requires
        old(table).wf(),
        old(input_buffer).wf(),
    ensures
        final(table).wf(),
        *final(input_buffer) == *old(input_buffer),
        final(table)@ == line_effect(old(table)@, old(input_buffer)@),
        !is_insert_line(old(input_buffer)@) || is_meta_line(old(input_buffer)@) || prepared(
            old(input_buffer)@,
        ) != PrepareResult::PrepareSuccess ==> *final(table) == *old(table),
        r@ == line_reply(old(table)@, old(input_buffer)@),
{
    let n = input_buffer.input_length();
    if n > 0 && input_buffer.first_byte() == 46 {
        return match do_meta_command(input_buffer) {
            MetaCommandResult::MetaCommandExit => Reply::Exit,
            MetaCommandResult::MetaCommandUnrecognizedCommand => Reply::UnrecognizedMetaCommand,
        };
    }
    let mut statement = Statement::new();
    match prepare_statement(input_buffer, &mut statement) {
        PrepareResult::PrepareSyntaxError => Reply::SyntaxError,
        PrepareResult::PrepareFieldTooLong => Reply::FieldTooLong,
        PrepareResult::PrepareUnrecognizedStatement => Reply::UnrecognizedStatement,
        PrepareResult::PrepareSuccess => match execute_statement(&statement, table) {
            ExecuteResult::ExecuteSuccess(rows) => {
                assert(rows@.len() == 0 ==> rows@.map_values(|r: Row| r@) =~= Seq::<RowModel>::empty());
                Reply::Executed(rows)
            },
            ExecuteResult::ExecuteTableFull => Reply::TableFull,
        },
    }
}

/// The decimal digits of `n`, most significant first.
pub open spec fn decimal_digits(n: nat) -> Seq<u8>
    decreases n,
{
    if n < 10 {
        seq![(48 + n) as u8]
    } else {
        decimal_digits(n / 10).push((48 + n % 10) as u8)
    }
}

/// The text form of a record: `(id, username, email)`.
pub open spec fn row_text(r: RowModel) -> Seq<u8> {
    seq![40u8] + decimal_digits(r.id as nat) + seq![44u8, 32u8] + r.username + seq![44u8, 32u8]
        + r.email + seq![41u8]
}

fn push_decimal(out: &mut Vec<u8>, n: u32)
    ensures
        final(out)@ == old(out)@ + decimal_digits(n as nat),
    decreases n,
{
    if n >= 10 {
        push_decimal(out, n / 10);
    }
    out.push((48 + n % 10) as u8);
    assert(final(out)@ =~= old(out)@ + decimal_digits(n as nat));
}

fn push_all(out: &mut Vec<u8>, s: &Vec<u8>)
    ensures
        final(out)@ == old(out)@ + s@,
{
    let ghost start = out@;
    let mut i: usize = 0;
    while i < s.len()
        invariant
            i <= s@.len(),
            out@ == start + s@.take(i as int),
        decreases s@.len() - i,
    {
        out.push(s[i]);
        i = i + 1;
        assert(out@ =~= start + s@.take(i as int));
    }
    assert(s@.take(i as int) =~= s@);
}

/// The text form of `row`, as bytes.
pub fn format_row(row: &Row) -> (t: Vec<u8>)
    ensures
        t@ == row_text(row@),
{
    let mut t: Vec<u8> = Vec::new();
    t.push(40u8);
    push_decimal(&mut t, row.id);
    t.push(44u8);
    t.push(32u8);
    push_all(&mut t, &row.username);
    t.push(44u8);
    t.push(32u8);
    push_all(&mut t, &row.email);
    t.push(41u8);
    assert(t@ =~= row_text(row@));
    t
}

} // verus!
