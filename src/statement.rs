//! Turning one command line into a statement, and running a statement
//! against a table.

use vstd::prelude::*;

use crate::layout::{COLUMN_EMAIL_SIZE, COLUMN_USERNAME_SIZE, TABLE_MAX_ROWS};
use crate::row::{row_well_formed, Row, RowModel};
use crate::pager::{row_bytes, row_written};
use crate::row::serialized;
use crate::table::{after_insert, InsertResult, Table};

verus! {

/// The current command line, without its line terminator.
pub struct InputBuffer {
    buffer: Vec<u8>,
    input_length: usize,
}

impl View for InputBuffer {
    type V = Seq<u8>;

    closed spec fn view(&self) -> Seq<u8> {
        self.buffer@
    }
}

/// `raw` without a trailing `"\n"` or `"\r\n"`.
pub open spec fn without_terminator(raw: Seq<u8>) -> Seq<u8> {
    if raw.len() >= 2 && raw[raw.len() - 2] == 13 && raw[raw.len() - 1] == 10 {
        raw.take(raw.len() - 2)
    } else if raw.len() >= 1 && raw[raw.len() - 1] == 10 {
        raw.take(raw.len() - 1)
    } else {
        raw
    }
}

impl InputBuffer {
    pub closed spec fn wf(&self) -> bool {
        self.input_length == self.buffer@.len()
    }

    /// An empty line.
    pub fn new() -> (b: InputBuffer)
        ensures
            b.wf(),
            b@ == Seq::<u8>::empty(),
    {
        InputBuffer { buffer: Vec::new(), input_length: 0 }
    }

    /// Replaces the line with `raw`, minus its line terminator.
    pub fn read_line(&mut self, raw: &[u8])
        ensures
            final(self).wf(),
            final(self)@ == without_terminator(raw@),
    {
        let n = raw.len();
        let keep: usize = if n >= 2 && raw[n - 2] == 13 && raw[n - 1] == 10 {
            n - 2
        } else if n >= 1 && raw[n - 1] == 10 {
            n - 1
        } else {
            n
        };
        let mut buffer: Vec<u8> = Vec::with_capacity(keep);
        let mut i: usize = 0;
        while i < keep
            invariant
                keep <= raw@.len(),
                i <= keep,
                buffer@ == raw@.take(i as int),
            decreases keep - i,
        {
            buffer.push(raw[i]);
            i = i + 1;
            assert(buffer@ =~= raw@.take(i as int));
        }
        assert(raw@.take(n as int) =~= raw@);
        self.buffer = buffer;
        self.input_length = keep;
    }

    /// The bytes of the line.
    pub fn line(&self) -> (r: &[u8])
        ensures
            r@ == self@,
    {
        self.buffer.as_slice()
    }

    /// The first byte of a non-empty line.
    pub fn first_byte(&self) -> (b: u8)
        requires
            self@.len() > 0,
        ensures
            b == self@[0],
    {
        self.buffer[0]
    }

    /// The length of the line in bytes.
    pub fn input_length(&self) -> (n: usize)
        requires
            self.wf(),
        ensures
            n == self@.len(),
    {
        self.input_length
    }
}

/// Which statement a line holds.
#[derive(Debug, PartialEq, Eq, Structural)]
pub enum StatementType {
    StatementInsert,
    StatementSelect,
    StatementNone,
}

/// A parsed command: its kind and, for an insert, the record to write.
pub struct Statement {
    pub statement_type: StatementType,
    pub row_to_insert: Row,
}

impl Statement {
    /// A statement that does nothing.
    pub fn new() -> (s: Statement)
        ensures
            s.statement_type == StatementType::StatementNone,
            s.row_to_insert@ == (RowModel { id: 0, username: Seq::empty(), email: Seq::empty() }),
    {
        Statement { statement_type: StatementType::StatementNone, row_to_insert: Row::new() }
    }
}

/// How preparing a line ended.
#[derive(Debug, PartialEq, Eq, Structural)]
pub enum PrepareResult {
    PrepareSuccess,
    PrepareSyntaxError,
    PrepareFieldTooLong,
    PrepareUnrecognizedStatement,
}

/// How a meta-command line was understood.
#[derive(Debug, PartialEq, Eq, Structural)]
pub enum MetaCommandResult {
    MetaCommandExit,
    MetaCommandUnrecognizedCommand,
}

/// The bytes of the word `insert`.
pub open spec fn insert_word() -> Seq<u8> {
    seq![105u8, 110u8, 115u8, 101u8, 114u8, 116u8]
}

/// The bytes of the word `select`.
pub open spec fn select_word() -> Seq<u8> {
    seq![115u8, 101u8, 108u8, 101u8, 99u8, 116u8]
}

/// The bytes of the meta-command `.exit`.
pub open spec fn exit_word() -> Seq<u8> {
    seq![46u8, 101u8, 120u8, 105u8, 116u8]
}

/// A space or a tab: what separates the words of a line.
pub open spec fn is_blank(b: u8) -> bool {
    b == 32 || b == 9
}

/// The words of `s`, the first of them already begun with `cur`.
pub open spec fn tokens_from(s: Seq<u8>, cur: Seq<u8>) -> Seq<Seq<u8>>
    decreases s.len(),
{
    let done: Seq<Seq<u8>> = if cur.len() == 0 {
        Seq::empty()
    } else {
        seq![cur]
    };
    if s.len() == 0 {
        done
    } else if is_blank(s[0]) {
        done + tokens_from(s.drop_first(), Seq::empty())
    } else {
        tokens_from(s.drop_first(), cur.push(s[0]))
    }
}

/// The maximal runs of non-blank bytes of `s`, in order.
pub open spec fn tokens(s: Seq<u8>) -> Seq<Seq<u8>> {
    tokens_from(s, Seq::empty())
}

pub open spec fn is_digit(b: u8) -> bool {
    48 <= b <= 57
}

/// One or more decimal digits.
pub open spec fn is_decimal(s: Seq<u8>) -> bool {
    s.len() > 0 && forall|k: int| 0 <= k < s.len() ==> is_digit(#[trigger] s[k])
}

/// The number that the decimal digits `s` spell.
pub open spec fn decimal_value(s: Seq<u8>) -> nat
    decreases s.len(),
{
    if s.len() == 0 {
        0
    } else {
        decimal_value(s.drop_last()) * 10 + (s.last() - 48) as nat
    }
}

/// Whether `s` spells an identifier: decimal digits whose value fits 32 bits.
pub open spec fn is_id(s: Seq<u8>) -> bool {
    is_decimal(s) && decimal_value(s) <= u32::MAX
}

pub open spec fn has_no_zero(s: Seq<u8>) -> bool {
    forall|k: int| 0 <= k < s.len() ==> #[trigger] s[k] != 0
}

/// A line that is classified as an insert: it begins with `insert`.
pub open spec fn is_insert_line(line: Seq<u8>) -> bool {
    line.len() >= 6 && line.take(6) == insert_word()
}

/// An insert line whose words are `insert`, an identifier and two texts.
pub open spec fn insert_well_shaped(line: Seq<u8>) -> bool {
    let t = tokens(line);
    &&& t.len() == 4
    &&& t[0] == insert_word()
    &&& is_id(t[1])
    &&& has_no_zero(t[2])
    &&& has_no_zero(t[3])
}

/// The record that a well-shaped insert line carries.
pub open spec fn insert_row(line: Seq<u8>) -> RowModel {
    let t = tokens(line);
    RowModel { id: decimal_value(t[1]) as u32, username: t[2], email: t[3] }
}

/// How preparing `line` ends.
pub open spec fn prepared(line: Seq<u8>) -> PrepareResult {
    if is_insert_line(line) {
        if !insert_well_shaped(line) {
            PrepareResult::PrepareSyntaxError
        } else if tokens(line)[2].len() > COLUMN_USERNAME_SIZE || tokens(line)[3].len()
            > COLUMN_EMAIL_SIZE {
            PrepareResult::PrepareFieldTooLong
        } else {
            PrepareResult::PrepareSuccess
        }
    } else if line == select_word() {
        PrepareResult::PrepareSuccess
    } else {
        PrepareResult::PrepareUnrecognizedStatement
    }
}

/// The words of `line`.
pub fn split_tokens(line: &[u8]) -> (r: Vec<Vec<u8>>)
    ensures
        r@.map_values(|w: Vec<u8>| w@) == tokens(line@),
{
    let ghost s = line@;
    let mut acc: Vec<Vec<u8>> = Vec::new();
    let mut cur: Vec<u8> = Vec::new();
    let mut i: usize = 0;
    assert(s.skip(0) =~= s);
    assert(acc@.map_values(|w: Vec<u8>| w@) + tokens_from(s, cur@) =~= tokens_from(s, cur@));
    while i < line.len()
        invariant
            s == line@,
            i <= s.len(),
            tokens(s) == acc@.map_values(|w: Vec<u8>| w@) + tokens_from(s.skip(i as int), cur@),
        decreases s.len() - i,
    {
        let ghost rest = s.skip(i as int);
        assert(rest.drop_first() =~= s.skip(i + 1));
        let ghost before = acc@.map_values(|w: Vec<u8>| w@);
        if line[i] == 32 || line[i] == 9 {
            if cur.len() > 0 {
                let word = cur;
                cur = Vec::new();
                acc.push(word);
                assert(acc@.map_values(|w: Vec<u8>| w@) =~= before + seq![word@]);
                assert(before + seq![word@] + tokens_from(s.skip(i + 1), cur@) =~= before + (
                seq![word@] + tokens_from(s.skip(i + 1), cur@)));
            } else {
                assert(cur@.len() == 0);
                assert(tokens_from(rest, cur@) == Seq::<Seq<u8>>::empty() + tokens_from(
                    s.skip(i + 1),
                    Seq::empty(),
                ));
                assert(cur@ =~= Seq::<u8>::empty());
                assert(tokens_from(rest, cur@) =~= tokens_from(s.skip(i + 1), cur@));
            }
        } else {
            cur.push(line[i]);
        }
        i = i + 1;
    }
    let ghost before = acc@.map_values(|w: Vec<u8>| w@);
    if cur.len() > 0 {
        acc.push(cur);
        assert(acc@.map_values(|w: Vec<u8>| w@) =~= before + tokens_from(s.skip(i as int), cur@));
    } else {
        assert(acc@.map_values(|w: Vec<u8>| w@) =~= before + tokens_from(s.skip(i as int), cur@));
    }
    acc
}

/// The identifier that `s` spells, if it is one.
pub fn parse_id(s: &Vec<u8>) -> (r: Option<u32>)
    ensures
        r == (if is_id(s@) {
            Some(decimal_value(s@) as u32)
        } else {
            None
        }),
{
    if s.len() == 0 {
        return None;
    }
    let cap: u64 = 0x1_0000_0000;
    let mut acc: u64 = 0;
    let mut i: usize = 0;
    assert(s@.take(0) =~= Seq::<u8>::empty());
    while i < s.len()
        invariant
            i <= s@.len(),
            cap == 0x1_0000_0000,
            forall|k: int| 0 <= k < i ==> is_digit(#[trigger] s@[k]),
            acc == if decimal_value(s@.take(i as int)) < cap {
                decimal_value(s@.take(i as int))
            } else {
                cap as nat
            },
        decreases s@.len() - i,
    {
        let b = s[i];
        if b < 48 || b > 57 {
            assert(!is_digit(s@[i as int]));
            return None;
        }
        let d: u64 = (b - 48) as u64;
        let ghost v = decimal_value(s@.take(i as int));
        assert(s@.take(i + 1).drop_last() =~= s@.take(i as int));
        assert(decimal_value(s@.take(i + 1)) == v * 10 + d);
        let next: u64 = acc * 10 + d;
        acc = if next < cap {
            next
        } else {
            cap
        };
        assert(acc as int == if v * 10 + d < cap { v * 10 + d } else { cap as int })
            by (nonlinear_arith)
            requires
                acc == (if next < cap { next } else { cap }),
                next == (if v < cap { v as int } else { cap as int }) * 10 + d,
                v >= 0,
                cap == 0x1_0000_0000,
                d <= 9,
        ;
        i = i + 1;
    }
    assert(s@.take(i as int) =~= s@);
    if acc < cap {
        Some(acc as u32)
    } else {
        None
    }
}

/// Whether no byte of `s` is zero.
fn no_zero_byte(s: &Vec<u8>) -> (r: bool)
    ensures
        r == has_no_zero(s@),
{
    let mut i: usize = 0;
    while i < s.len()
        invariant
            i <= s@.len(),
            forall|k: int| 0 <= k < i ==> #[trigger] s@[k] != 0,
        decreases s@.len() - i,
    {
        if s[i] == 0 {
            return false;
        }
        i = i + 1;
    }
    true
}

/// Whether `s` is the word `insert`.
fn is_insert_word(s: &[u8]) -> (r: bool)
    ensures
        r == (s@ == insert_word()),
{
    let r = s.len() == 6 && s[0] == 105 && s[1] == 110 && s[2] == 115 && s[3] == 101 && s[4] == 114
        && s[5] == 116;
    if r {
        assert(s@ =~= insert_word());
    }
    r
}

/// Whether `s` begins with the word `insert`.
fn starts_with_insert(s: &[u8]) -> (r: bool)
    ensures
        r == is_insert_line(s@),
{
    let r = s.len() >= 6 && s[0] == 105 && s[1] == 110 && s[2] == 115 && s[3] == 101 && s[4] == 114
        && s[5] == 116;
    if r {
        assert(s@.take(6) =~= insert_word());
    } else if s.len() >= 6 {
        assert(s@.take(6)[0] == s@[0] && s@.take(6)[1] == s@[1] && s@.take(6)[2] == s@[2]
            && s@.take(6)[3] == s@[3] && s@.take(6)[4] == s@[4] && s@.take(6)[5] == s@[5]);
    }
    r
}

/// Whether `s` is the word `select`.
fn is_select_word(s: &[u8]) -> (r: bool)
    ensures
        r == (s@ == select_word()),
{
    let r = s.len() == 6 && s[0] == 115 && s[1] == 101 && s[2] == 108 && s[3] == 101 && s[4] == 99
        && s[5] == 116;
    if r {
        assert(s@ =~= select_word());
    }
    r
}

/// Whether `s` is the meta-command `.exit`.
fn is_exit_word(s: &[u8]) -> (r: bool)
    ensures
        r == (s@ == exit_word()),
{
    let r = s.len() == 5 && s[0] == 46 && s[1] == 101 && s[2] == 120 && s[3] == 105 && s[4] == 116;
    if r {
        assert(s@ =~= exit_word());
    }
    r
}

/// Parses the line into `statement`. On success the statement's kind is set
/// and, for an insert, its record; on any error the statement is left as it
/// was. The line itself is not changed.
pub fn prepare_statement(input_buffer: &mut InputBuffer, statement: &mut Statement) -> (r: PrepareResult)
    ensures
        *final(input_buffer) == *old(input_buffer),
        r == prepared(old(input_buffer)@),
        r != PrepareResult::PrepareSuccess ==> *final(statement) == *old(statement),
        r == PrepareResult::PrepareSuccess && is_insert_line(old(input_buffer)@) ==> {
            &&& final(statement).statement_type == StatementType::StatementInsert
            &&& final(statement).row_to_insert@ == insert_row(old(input_buffer)@)
            &&& row_well_formed(final(statement).row_to_insert@)
        },
        r == PrepareResult::PrepareSuccess && !is_insert_line(old(input_buffer)@) ==> {
            &&& final(statement).statement_type == StatementType::StatementSelect
            &&& final(statement).row_to_insert == old(statement).row_to_insert
        },
{
    let line = input_buffer.buffer.as_slice();
    if starts_with_insert(line) {
        let mut words = split_tokens(line);
        let ghost t = tokens(line@);
        assert(words@.len() == t.len());
        if words.len() != 4 {
            return PrepareResult::PrepareSyntaxError;
        }
        assert(words@[0]@ == t[0] && words@[1]@ == t[1] && words@[2]@ == t[2] && words@[3]@ == t[3]);
        if !is_insert_word(words[0].as_slice()) {
            return PrepareResult::PrepareSyntaxError;
        }
        let id = match parse_id(&words[1]) {
            Some(id) => id,
            None => {
                return PrepareResult::PrepareSyntaxError;
            },
        };
        if !no_zero_byte(&words[2]) || !no_zero_byte(&words[3]) {
            return PrepareResult::PrepareSyntaxError;
        }
        if words[2].len() > COLUMN_USERNAME_SIZE || words[3].len() > COLUMN_EMAIL_SIZE {
            return PrepareResult::PrepareFieldTooLong;
        }
        let email = words.pop().unwrap();
        let username = words.pop().unwrap();
        statement.statement_type = StatementType::StatementInsert;
        statement.row_to_insert = Row { id, username, email };
        PrepareResult::PrepareSuccess
    } else if is_select_word(line) {
        statement.statement_type = StatementType::StatementSelect;
        PrepareResult::PrepareSuccess
    } else {
        PrepareResult::PrepareUnrecognizedStatement
    }
}

/// Understands a meta-command line: `.exit` asks to close down; anything
/// else is not a known meta-command.
pub fn do_meta_command(input_buffer: &mut InputBuffer) -> (r: MetaCommandResult)
    ensures
        *final(input_buffer) == *old(input_buffer),
        r == (if old(input_buffer)@ == exit_word() {
            MetaCommandResult::MetaCommandExit
        } else {
            MetaCommandResult::MetaCommandUnrecognizedCommand
        }),
{
    if is_exit_word(input_buffer.buffer.as_slice()) {
        MetaCommandResult::MetaCommandExit
    } else {
        MetaCommandResult::MetaCommandUnrecognizedCommand
    }
}

/// How running a statement ended: the records it produced, or a full table.
pub enum ExecuteResult {
    ExecuteSuccess(Vec<Row>),
    ExecuteTableFull,
}

/// Runs `statement` against `table`. An insert appends its record, or
/// reports a full table; a select produces every record in order and changes
/// nothing; a statement of no kind does nothing.
pub fn execute_statement(statement: &Statement, table: &mut Table) -> (r: ExecuteResult)
    requires
        old(table).wf(),
        statement.statement_type == StatementType::StatementInsert ==> row_well_formed(
            statement.row_to_insert@,
        ),
    ensures
        final(table).wf(),
        statement.statement_type == StatementType::StatementInsert ==> {
            &&& final(table)@ == after_insert(old(table)@, statement.row_to_insert@)
            &&& match r {
                ExecuteResult::ExecuteSuccess(rows) => old(table)@.len() < TABLE_MAX_ROWS && rows@.len() == 0,
                ExecuteResult::ExecuteTableFull => old(table)@.len() >= TABLE_MAX_ROWS,
            }
            &&& old(table)@.len() >= TABLE_MAX_ROWS ==> *final(table) == *old(table)
            &&& old(table)@.len() < TABLE_MAX_ROWS ==> {
                &&& row_written(
                    old(table).pages_view(),
                    final(table).pages_view(),
                    old(table)@.len() as int,
                    serialized(statement.row_to_insert@),
                )
                &&& forall|j: int|
                    0 <= j < old(table)@.len() ==> #[trigger] row_bytes(final(table).pages_view(), j)
                        == row_bytes(old(table).pages_view(), j)
            }
        },
        statement.statement_type != StatementType::StatementInsert ==> {
            &&& *final(table) == *old(table)
            &&& final(table)@ == old(table)@
            &&& match r {
                ExecuteResult::ExecuteSuccess(rows) => rows@.map_values(|x: Row| x@) == (if statement.statement_type
                    == StatementType::StatementSelect {
                    old(table)@
                } else {
                    Seq::empty()
                }),
                ExecuteResult::ExecuteTableFull => false,
            }
        },
{
    match statement.statement_type {
        StatementType::StatementInsert => match table.insert(&statement.row_to_insert) {
            InsertResult::Inserted => ExecuteResult::ExecuteSuccess(Vec::new()),
            InsertResult::TableFull => ExecuteResult::ExecuteTableFull,
        },
        StatementType::StatementSelect => ExecuteResult::ExecuteSuccess(table.select()),
        StatementType::StatementNone => {
            let rows: Vec<Row> = Vec::new();
            assert(rows@.map_values(|x: Row| x@) =~= Seq::<RowModel>::empty());
            ExecuteResult::ExecuteSuccess(rows)
        },
    }
}

} // verus!
