//! One record and its fixed binary layout: the id in four little-endian bytes,
//! then each text field padded with zero bytes to its column width.

use vstd::prelude::*;

use crate::layout::{
    lemma_geometry, COLUMN_EMAIL_SIZE, COLUMN_USERNAME_SIZE, EMAIL_OFFSET, ID_SIZE, ROW_SIZE,
    USER_NAME_OFFSET,
};

verus! {

/// A record: an identifier and two text fields, each held as its bytes.
pub struct Row {
    pub id: u32,
    pub username: Vec<u8>,
    pub email: Vec<u8>,
}

/// What a record is, apart from how it is held.
pub struct RowModel {
    pub id: u32,
    pub username: Seq<u8>,
    pub email: Seq<u8>,
}

impl Row {
    /// The record with id 0 and empty text fields.
    pub fn new() -> (r: Row)
        ensures
            r@ == (RowModel { id: 0, username: Seq::empty(), email: Seq::empty() }),
    {
        Row {
            id: 0,
            username: Vec::with_capacity(COLUMN_USERNAME_SIZE),
            email: Vec::with_capacity(COLUMN_EMAIL_SIZE),
        }
    }
}

impl View for Row {
    type V = RowModel;

    open spec fn view(&self) -> RowModel {
        RowModel { id: self.id, username: self.username@, email: self.email@ }
    }
}

/// Text that a column of `width` bytes can hold: it fits, and it holds no
/// zero byte, which the layout keeps for padding.
pub open spec fn text_fits(s: Seq<u8>, width: nat) -> bool {
    s.len() <= width && forall|k: int| 0 <= k < s.len() ==> s[k] != 0
}

/// A record that the layout can store.
pub open spec fn row_well_formed(r: RowModel) -> bool {
    text_fits(r.username, COLUMN_USERNAME_SIZE as nat) && text_fits(r.email, COLUMN_EMAIL_SIZE as nat)
}

/// The four bytes of `id`, least significant first.
pub open spec fn id_bytes(id: u32) -> Seq<u8> {
    seq![(id & 0xff) as u8, ((id >> 8) & 0xff) as u8, ((id >> 16) & 0xff) as u8, (id >> 24) as u8]
}

/// The identifier that four bytes hold, least significant first.
pub open spec fn id_of_bytes(b: Seq<u8>) -> u32 {
    (b[0] as u32) | ((b[1] as u32) << 8) | ((b[2] as u32) << 16) | ((b[3] as u32) << 24)
}

/// `s` followed by zero bytes up to `width`.
pub open spec fn padded(s: Seq<u8>, width: nat) -> Seq<u8> {
    s + Seq::new((width - s.len()) as nat, |k: int| 0u8)
}

/// The number of bytes before the first zero byte of `f`, or all of them.
pub open spec fn text_len(f: Seq<u8>) -> nat
    decreases f.len(),
{
    if f.len() == 0 || f[0] == 0 {
        0
    } else {
        1 + text_len(f.drop_first())
    }
}

/// The text that a padded column holds: its bytes before the padding.
pub open spec fn unpadded(f: Seq<u8>) -> Seq<u8> {
    f.take(text_len(f) as int)
}

/// The fixed-width byte block of a record.
pub open spec fn serialized(r: RowModel) -> Seq<u8> {
    id_bytes(r.id) + padded(r.username, COLUMN_USERNAME_SIZE as nat) + padded(
        r.email,
        COLUMN_EMAIL_SIZE as nat,
    )
}

/// The record that a fixed-width byte block holds.
pub open spec fn deserialized(b: Seq<u8>) -> RowModel {
    RowModel {
        id: id_of_bytes(b.take(ID_SIZE as int)),
        username: unpadded(b.subrange(USER_NAME_OFFSET as int, EMAIL_OFFSET as int)),
        email: unpadded(b.subrange(EMAIL_OFFSET as int, ROW_SIZE as int)),
    }
}

/// `text_len` is the index of the first zero byte, or the length.
proof fn lemma_text_len_is(f: Seq<u8>, n: int)
    requires
        0 <= n <= f.len(),
        forall|k: int| 0 <= k < n ==> f[k] != 0,
        n == f.len() || f[n] == 0,
    ensures
        text_len(f) == n,
    decreases n,
{
    if n > 0 {
        lemma_text_len_is(f.drop_first(), n - 1);
    }
}

proof fn lemma_id_round_trip(id: u32)
    ensures
        id_of_bytes(id_bytes(id)) == id,
{
    let b = id_bytes(id);
    let (b0, b1, b2, b3) = (b[0], b[1], b[2], b[3]);
    assert(b0 == (id & 0xff) as u8 && b1 == ((id >> 8) & 0xff) as u8 && b2 == ((id >> 16) & 0xff) as u8
        && b3 == (id >> 24) as u8);
    assert(((b0 as u32) | ((b1 as u32) << 8) | ((b2 as u32) << 16) | ((b3 as u32) << 24)) == id)
        by (bit_vector)
        requires
            b0 == (id & 0xff) as u8,
            b1 == ((id >> 8) & 0xff) as u8,
            b2 == ((id >> 16) & 0xff) as u8,
            b3 == (id >> 24) as u8,
    ;
}

proof fn lemma_text_round_trip(s: Seq<u8>, width: nat)
    requires
        text_fits(s, width),
    ensures
        padded(s, width).len() == width,
        unpadded(padded(s, width)) == s,
{
    let f = padded(s, width);
    lemma_text_len_is(f, s.len() as int);
    assert(f.take(s.len() as int) =~= s);
}

/// Deserializing the serialized form of a well-formed record gives the record
/// back.
pub proof fn lemma_round_trip(r: RowModel)
    requires
        row_well_formed(r),
    ensures
        serialized(r).len() == ROW_SIZE,
        deserialized(serialized(r)) == r,
{
    lemma_geometry();
    lemma_id_round_trip(r.id);
    lemma_text_round_trip(r.username, COLUMN_USERNAME_SIZE as nat);
    lemma_text_round_trip(r.email, COLUMN_EMAIL_SIZE as nat);
    let b = serialized(r);
    let u = padded(r.username, COLUMN_USERNAME_SIZE as nat);
    let e = padded(r.email, COLUMN_EMAIL_SIZE as nat);
    assert(b.take(ID_SIZE as int) =~= id_bytes(r.id));
    assert(b.subrange(USER_NAME_OFFSET as int, EMAIL_OFFSET as int) =~= u);
    assert(b.subrange(EMAIL_OFFSET as int, ROW_SIZE as int) =~= e);
}

/// Appends `width` bytes to `out`: the text `s`, then zero padding.
fn push_padded(out: &mut Vec<u8>, s: &Vec<u8>, width: usize)
    requires
        s@.len() <= width,
    ensures
        final(out)@ == old(out)@ + padded(s@, width as nat),
{
    let ghost start = out@;
    let mut i: usize = 0;
    while i < s.len()
        invariant
            i <= s@.len(),
            out@ == start + s@.take(i as int),
        decreases s@.len() - i,
    {
        out.push(s[i]);
        i = i + 1;
        assert(s@.take(i as int) =~= s@.take(i - 1) .push(s@[i - 1]));
    }
    assert(s@.take(i as int) =~= s@);
    while i < width
        invariant
            s@.len() <= i <= width,
            out@ == start + s@ + Seq::new((i - s@.len()) as nat, |k: int| 0u8),
        decreases width - i,
    {
        out.push(0u8);
        i = i + 1;
        assert(Seq::new((i - s@.len()) as nat, |k: int| 0u8) =~= Seq::new(
            (i - 1 - s@.len()) as nat,
            |k: int| 0u8,
        ).push(0u8));
    }
    assert(start + s@ + Seq::new((width - s@.len()) as nat, |k: int| 0u8) =~= start + padded(
        s@,
        width as nat,
    ));
}

/// The fixed-width byte block of `row`.
pub fn serialize_row(row: &Row) -> (b: Vec<u8>)
    requires
        row@.username.len() <= COLUMN_USERNAME_SIZE,
        row@.email.len() <= COLUMN_EMAIL_SIZE,
    ensures
        b@ == serialized(row@),
        b@.len() == ROW_SIZE,
{
    proof {
        lemma_geometry();
    }
    let id = row.id;
    let mut b: Vec<u8> = Vec::with_capacity(ROW_SIZE);
    b.push((id & 0xff) as u8);
    b.push(((id >> 8) & 0xff) as u8);
    b.push(((id >> 16) & 0xff) as u8);
    b.push((id >> 24) as u8);
    assert(b@ =~= id_bytes(id));
    push_padded(&mut b, &row.username, COLUMN_USERNAME_SIZE);
    push_padded(&mut b, &row.email, COLUMN_EMAIL_SIZE);
    assert(b@ =~= serialized(row@));
    b
}

/// The text held in `b[from..to]`: the bytes before the first zero byte.
fn read_text(b: &[u8], from: usize, to: usize) -> (s: Vec<u8>)
    requires
        from <= to <= b@.len(),
    ensures
        s@ == unpadded(b@.subrange(from as int, to as int)),
{
    let ghost f = b@.subrange(from as int, to as int);
    let mut s: Vec<u8> = Vec::new();
    let mut i: usize = from;
    while i < to && b[i] != 0
        invariant
            from <= i <= to,
            to <= b@.len(),
            f == b@.subrange(from as int, to as int),
            s@ == f.take(i - from),
            forall|k: int| 0 <= k < i - from ==> f[k] != 0,
        decreases to - i,
    {
        s.push(b[i]);
        i = i + 1;
        assert(f.take(i - from) =~= f.take(i - 1 - from).push(f[i - 1 - from]));
    }
    proof {
        lemma_text_len_is(f, i - from);
    }
    s
}

/// The record that the fixed-width byte block `b` holds.
pub fn deserialize_row(b: &[u8]) -> (r: Row)
    requires
        b@.len() == ROW_SIZE,
    ensures
        r@ == deserialized(b@),
{
    proof {
        lemma_geometry();
    }
    let id = (b[0] as u32) | ((b[1] as u32) << 8) | ((b[2] as u32) << 16) | ((b[3] as u32) << 24);
    assert(b@.take(ID_SIZE as int)[0] == b[0] && b@.take(ID_SIZE as int)[1] == b[1]
        && b@.take(ID_SIZE as int)[2] == b[2] && b@.take(ID_SIZE as int)[3] == b[3]);
    let username = read_text(b, USER_NAME_OFFSET, EMAIL_OFFSET);
    let email = read_text(b, EMAIL_OFFSET, ROW_SIZE);
    Row { id, username, email }
}

} // verus!
