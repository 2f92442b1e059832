//! Binary form of column descriptors and schemas.
//!
//! A schema is stored as a concatenation of frames, one per column, in column
//! order: a four-byte little-endian length followed by that many bytes of the
//! column record. A column record holds, in order: the name as length-prefixed
//! UTF-8, the data type (a tag byte, followed by a time-unit byte for the
//! temporal types that carry one), a `nullable` flag byte, a `unique` flag byte,
//! and the optional foreign-table reference (flag byte `0`, or flag byte `1`
//! followed by the name as length-prefixed UTF-8).
use vstd::prelude::*;
use vstd::slice::slice_subrange;
use vstd::utf8::*;

verus! {

broadcast use {encode_utf8_valid_utf8, encode_utf8_decode_utf8};

/// Resolution of a temporal data type.
#[derive(Clone, Copy, Debug, PartialEq, Eq, Hash)]
pub enum TimeUnit {
    Second,
    Millisecond,
    Microsecond,
    Nanosecond,
}

/// The type of the values held by a column.
#[derive(Clone, Copy, Debug, PartialEq, Eq, Hash)]
pub enum DataType {
    Null,
    Boolean,
    Int8,
    Int16,
    Int32,
    Int64,
    UInt8,
    UInt16,
    UInt32,
    UInt64,
    Float16,
    Float32,
    Float64,
    Utf8,
    LargeUtf8,
    Binary,
    LargeBinary,
    Date32,
    Date64,
    Timestamp(TimeUnit),
    Time32(TimeUnit),
    Time64(TimeUnit),
    Duration(TimeUnit),
}

/// Failure to read a stored schema.
#[derive(Clone, Copy, Debug, PartialEq, Eq, Hash)]
pub enum CodecError {
    /// Truncated framing, a length past the end of the buffer, or a column
    /// record that does not decode.
    CorruptSchema,
}

/// One column descriptor of a schema.
#[derive(Clone, Debug, PartialEq, Eq, Hash)]
pub struct Column {
    /// Column name. Can't be empty.
    pub name: String,
    /// Column datatype.
    pub datatype: DataType,
    /// Whether the column allows null values. Not legal for primary keys.
    pub nullable: bool,
    /// Whether the column should only allow unique values (ignoring NULLs).
    /// Must be true for a primary key column. Requires index.
    pub unique: bool,
    /// If set, this column is a foreign key reference to the given table's
    /// primary key. Requires index.
    pub references: Option<String>,
}

/// What a column descriptor holds, as mathematical values.
pub struct ColumnModel {
    pub name: Seq<char>,
    pub datatype: DataType,
    pub nullable: bool,
    pub unique: bool,
    pub references: Option<Seq<char>>,
}

pub open spec fn opt_text_view(o: Option<String>) -> Option<Seq<char>> {
    match o {
        Some(s) => Some(s@),
        None => None,
    }
}

impl View for Column {
    type V = ColumnModel;

    open spec fn view(&self) -> ColumnModel {
        ColumnModel {
            name: self.name@,
            datatype: self.datatype,
            nullable: self.nullable,
            unique: self.unique,
            references: opt_text_view(self.references),
        }
    }
}

/// An ordered sequence of columns.
#[derive(Clone, Debug, PartialEq, Eq)]
pub struct SchemaVec {
    pub columns: Vec<Column>,
}

pub open spec fn columns_view(v: Seq<Column>) -> Seq<ColumnModel> {
    v.map_values(|c: Column| c@)
}

impl View for SchemaVec {
    type V = Seq<ColumnModel>;

    open spec fn view(&self) -> Seq<ColumnModel> {
        columns_view(self.columns@)
    }
}

// ---------------------------------------------------------------------------
// The format, as spec functions
// ---------------------------------------------------------------------------

/// The four little-endian bytes of `n`.
pub open spec fn u32_le_bytes(n: u32) -> Seq<u8> {
    seq![
        (n & 0xff) as u8,
        ((n >> 8u32) & 0xff) as u8,
        ((n >> 16u32) & 0xff) as u8,
        ((n >> 24u32) & 0xff) as u8,
    ]
}

/// The value of the first four bytes of `b`, read little-endian.
pub open spec fn u32_from_le(b: Seq<u8>) -> u32
    recommends
        b.len() >= 4,
{
    (b[0] as u32) | ((b[1] as u32) << 8u32) | ((b[2] as u32) << 16u32) | ((b[3] as u32) << 24u32)
}

/// A string as its UTF-8 byte length (four bytes, little-endian) and its UTF-8 bytes.
pub open spec fn text_bytes(s: Seq<char>) -> Seq<u8> {
    u32_le_bytes(encode_utf8(s).len() as u32) + encode_utf8(s)
}

pub open spec fn unit_byte(u: TimeUnit) -> u8 {
    match u {
        TimeUnit::Second => 0,
        TimeUnit::Millisecond => 1,
        TimeUnit::Microsecond => 2,
        TimeUnit::Nanosecond => 3,
    }
}

/// The tag byte of each data type.
pub open spec fn type_tag(t: DataType) -> u8 {
    match t {
        DataType::Null => 0,
        DataType::Boolean => 1,
        DataType::Int8 => 2,
        DataType::Int16 => 3,
        DataType::Int32 => 4,
        DataType::Int64 => 5,
        DataType::UInt8 => 6,
        DataType::UInt16 => 7,
        DataType::UInt32 => 8,
        DataType::UInt64 => 9,
        DataType::Float16 => 10,
        DataType::Float32 => 11,
        DataType::Float64 => 12,
        DataType::Utf8 => 13,
        DataType::LargeUtf8 => 14,
        DataType::Binary => 15,
        DataType::LargeBinary => 16,
        DataType::Date32 => 17,
        DataType::Date64 => 18,
        DataType::Timestamp(_) => 19,
        DataType::Time32(_) => 20,
        DataType::Time64(_) => 21,
        DataType::Duration(_) => 22,
    }
}

/// The time unit a data type carries, if any.
pub open spec fn type_unit(t: DataType) -> Option<TimeUnit> {
    match t {
        DataType::Timestamp(u) => Some(u),
        DataType::Time32(u) => Some(u),
        DataType::Time64(u) => Some(u),
        DataType::Duration(u) => Some(u),
        _ => None,
    }
}

pub open spec fn type_bytes(t: DataType) -> Seq<u8> {
    match type_unit(t) {
        Some(u) => seq![type_tag(t), unit_byte(u)],
        None => seq![type_tag(t)],
    }
}

pub open spec fn flag_byte(b: bool) -> u8 {
    if b {
        1
    } else {
        0
    }
}

pub open spec fn references_bytes(r: Option<Seq<char>>) -> Seq<u8> {
    match r {
        None => seq![0u8],
        Some(t) => seq![1u8] + text_bytes(t),
    }
}

/// The record of one column.
pub open spec fn column_bytes(c: ColumnModel) -> Seq<u8> {
    text_bytes(c.name) + type_bytes(c.datatype) + seq![flag_byte(c.nullable), flag_byte(c.unique)]
        + references_bytes(c.references)
}

/// A column whose record length can be written in a four-byte prefix.
pub open spec fn column_fits(c: ColumnModel) -> bool {
    column_bytes(c).len() <= u32::MAX
}

pub open spec fn schema_fits(cols: Seq<ColumnModel>) -> bool {
    forall|i: int| 0 <= i < cols.len() ==> column_fits(#[trigger] cols[i])
}

/// A record preceded by its length, four bytes little-endian.
pub open spec fn frame(record: Seq<u8>) -> Seq<u8> {
    u32_le_bytes(record.len() as u32) + record
}

/// The encoded schema: the frames of its columns, in column order.
pub open spec fn schema_bytes(cols: Seq<ColumnModel>) -> Seq<u8>
    decreases cols.len(),
{
    if cols.len() == 0 {
        Seq::empty()
    } else {
        frame(column_bytes(cols[0])) + schema_bytes(cols.drop_first())
    }
}

// ---------------------------------------------------------------------------
// Reading, as spec functions: each returns the value read and the bytes left
// ---------------------------------------------------------------------------

pub open spec fn parse_u32(b: Seq<u8>) -> Option<(u32, Seq<u8>)> {
    if b.len() < 4 {
        None
    } else {
        Some((u32_from_le(b), b.skip(4)))
    }
}

pub open spec fn parse_text(b: Seq<u8>) -> Option<(Seq<char>, Seq<u8>)> {
    match parse_u32(b) {
        None => None,
        Some((n, rest)) => {
            if rest.len() < n || !valid_utf8(rest.take(n as int)) {
                None
            } else {
                Some((decode_utf8(rest.take(n as int)), rest.skip(n as int)))
            }
        },
    }
}

pub open spec fn parse_flag(b: Seq<u8>) -> Option<(bool, Seq<u8>)> {
    if b.len() >= 1 && b[0] == 0 {
        Some((false, b.skip(1)))
    } else if b.len() >= 1 && b[0] == 1 {
        Some((true, b.skip(1)))
    } else {
        None
    }
}

pub open spec fn unit_of_byte(x: u8) -> Option<TimeUnit> {
    if x == 0 {
        Some(TimeUnit::Second)
    } else if x == 1 {
        Some(TimeUnit::Millisecond)
    } else if x == 2 {
        Some(TimeUnit::Microsecond)
    } else if x == 3 {
        Some(TimeUnit::Nanosecond)
    } else {
        None
    }
}

/// The data type without a time unit whose tag is `x`, if any.
pub open spec fn plain_type_of_tag(x: u8) -> Option<DataType> {
    if x == 0 {
        Some(DataType::Null)
    } else if x == 1 {
        Some(DataType::Boolean)
    } else if x == 2 {
        Some(DataType::Int8)
    } else if x == 3 {
        Some(DataType::Int16)
    } else if x == 4 {
        Some(DataType::Int32)
    } else if x == 5 {
        Some(DataType::Int64)
    } else if x == 6 {
        Some(DataType::UInt8)
    } else if x == 7 {
        Some(DataType::UInt16)
    } else if x == 8 {
        Some(DataType::UInt32)
    } else if x == 9 {
        Some(DataType::UInt64)
    } else if x == 10 {
        Some(DataType::Float16)
    } else if x == 11 {
        Some(DataType::Float32)
    } else if x == 12 {
        Some(DataType::Float64)
    } else if x == 13 {
        Some(DataType::Utf8)
    } else if x == 14 {
        Some(DataType::LargeUtf8)
    } else if x == 15 {
        Some(DataType::Binary)
    } else if x == 16 {
        Some(DataType::LargeBinary)
    } else if x == 17 {
        Some(DataType::Date32)
    } else if x == 18 {
        Some(DataType::Date64)
    } else {
        None
    }
}

/// The data type with time unit `u` whose tag is `x`, if any.
pub open spec fn unit_type_of_tag(x: u8, u: TimeUnit) -> Option<DataType> {
    if x == 19 {
        Some(DataType::Timestamp(u))
    } else if x == 20 {
        Some(DataType::Time32(u))
    } else if x == 21 {
        Some(DataType::Time64(u))
    } else if x == 22 {
        Some(DataType::Duration(u))
    } else {
        None
    }
}

pub open spec fn parse_type(b: Seq<u8>) -> Option<(DataType, Seq<u8>)> {
    if b.len() < 1 {
        None
    } else if plain_type_of_tag(b[0]) is Some {
        Some((plain_type_of_tag(b[0]).unwrap(), b.skip(1)))
    } else if 19 <= b[0] <= 22 && b.len() >= 2 && unit_of_byte(b[1]) is Some {
        Some((unit_type_of_tag(b[0], unit_of_byte(b[1]).unwrap()).unwrap(), b.skip(2)))
    } else {
        None
    }
}

pub open spec fn parse_references(b: Seq<u8>) -> Option<(Option<Seq<char>>, Seq<u8>)> {
    match parse_flag(b) {
        None => None,
        Some((false, rest)) => Some((None, rest)),
        Some((true, rest)) => match parse_text(rest) {
            None => None,
            Some((t, rest2)) => Some((Some(t), rest2)),
        },
    }
}

/// The column that a whole record holds, if it is well formed and has no
/// trailing bytes.
#[verifier::opaque]
pub open spec fn parse_column(b: Seq<u8>) -> Option<ColumnModel> {
    match parse_text(b) {
        None => None,
        Some((name, b1)) => match parse_type(b1) {
            None => None,
            Some((datatype, b2)) => match parse_flag(b2) {
                None => None,
                Some((nullable, b3)) => match parse_flag(b3) {
                    None => None,
                    Some((unique, b4)) => match parse_references(b4) {
                        None => None,
                        Some((references, b5)) => {
                            if b5.len() == 0 {
                                Some(ColumnModel { name, datatype, nullable, unique, references })
                            } else {
                                None
                            }
                        },
                    },
                },
            },
        },
    }
}

/// The columns that an encoded schema holds, read frame by frame until the
/// buffer is exhausted; `None` on a truncated length, a length past the end,
/// or a record that does not decode.
pub open spec fn parse_schema(b: Seq<u8>) -> Option<Seq<ColumnModel>>
    decreases b.len(),
{
    if b.len() == 0 {
        Some(Seq::empty())
    } else if b.len() < 4 {
        None
    } else {
        let n = u32_from_le(b);
        let rest = b.skip(4);
        if rest.len() < n {
            None
        } else {
            match parse_column(rest.take(n as int)) {
                None => None,
                Some(c) => match parse_schema(rest.skip(n as int)) {
                    None => None,
                    Some(t) => Some(seq![c] + t),
                },
            }
        }
    }
}

// ---------------------------------------------------------------------------
// Lemmas on the pieces
// ---------------------------------------------------------------------------

proof fn lemma_u32_le(n: u32)
    ensures
        u32_from_le(u32_le_bytes(n)) == n,
{
    let b0 = (n & 0xff) as u8;
    let b1 = ((n >> 8u32) & 0xff) as u8;
    let b2 = ((n >> 16u32) & 0xff) as u8;
    let b3 = ((n >> 24u32) & 0xff) as u8;
    assert(((b0 as u32) | ((b1 as u32) << 8u32) | ((b2 as u32) << 16u32) | ((b3 as u32) << 24u32))
        == n) by (bit_vector)
        requires
            b0 == (n & 0xff) as u8,
            b1 == ((n >> 8u32) & 0xff) as u8,
            b2 == ((n >> 16u32) & 0xff) as u8,
            b3 == ((n >> 24u32) & 0xff) as u8,
    ;
}

proof fn lemma_parse_u32(n: u32, rest: Seq<u8>)
    ensures
        parse_u32(u32_le_bytes(n) + rest) == Some((n, rest)),
{
    lemma_u32_le(n);
    let b = u32_le_bytes(n) + rest;
    assert(b.skip(4) =~= rest);
    assert(b.subrange(0, 4) =~= u32_le_bytes(n));
}

proof fn lemma_parse_text(s: Seq<char>, rest: Seq<u8>)
    requires
        encode_utf8(s).len() <= u32::MAX,
    ensures
        parse_text(text_bytes(s) + rest) == Some((s, rest)),
{
    let e = encode_utf8(s);
    let n = e.len() as u32;
    assert(text_bytes(s) + rest =~= u32_le_bytes(n) + (e + rest));
    lemma_parse_u32(n, e + rest);
    assert((e + rest).take(n as int) =~= e);
    assert((e + rest).skip(n as int) =~= rest);
}

proof fn lemma_parse_flag(f: bool, rest: Seq<u8>)
    ensures
        parse_flag(seq![flag_byte(f)] + rest) == Some((f, rest)),
{
    assert((seq![flag_byte(f)] + rest).skip(1) =~= rest);
}

proof fn lemma_parse_type(t: DataType, rest: Seq<u8>)
    ensures
        parse_type(type_bytes(t) + rest) == Some((t, rest)),
{
    let b = type_bytes(t) + rest;
    match type_unit(t) {
        Some(u) => {
            assert(b.skip(2) =~= rest);
        },
        None => {
            assert(b.skip(1) =~= rest);
        },
    }
}

// ---------------------------------------------------------------------------
// Executable pieces
// ---------------------------------------------------------------------------

fn put_u32_le(out: &mut Vec<u8>, n: u32)
    ensures
        final(out)@ == old(out)@ + u32_le_bytes(n),
{
    out.push((n & 0xff) as u8);
    out.push(((n >> 8u32) & 0xff) as u8);
    out.push(((n >> 16u32) & 0xff) as u8);
    out.push(((n >> 24u32) & 0xff) as u8);
    assert(final(out)@ =~= old(out)@ + u32_le_bytes(n));
}

fn put_bytes(out: &mut Vec<u8>, b: &[u8])
    ensures
        final(out)@ == old(out)@ + b@,
{
    let ghost start = out@;
    let mut i: usize = 0;
    while i < b.len()
        invariant
            i <= b@.len(),
            out@ == start + b@.take(i as int),
        decreases b@.len() - i,
    {
        out.push(b[i]);
        i = i + 1;
        assert(out@ =~= start + b@.take(i as int));
    }
    assert(b@.take(i as int) =~= b@);
}

fn put_text(out: &mut Vec<u8>, s: &str)
    requires
        encode_utf8(s@).len() <= u32::MAX,
    ensures
        final(out)@ == old(out)@ + text_bytes(s@),
{
    let b = s.as_bytes();
    put_u32_le(out, b.len() as u32);
    put_bytes(out, b);
    assert(final(out)@ =~= old(out)@ + text_bytes(s@));
}

fn put_type(out: &mut Vec<u8>, t: DataType)
    ensures
        final(out)@ == old(out)@ + type_bytes(t),
{
    let (tag, unit): (u8, Option<TimeUnit>) = match t {
        DataType::Null => (0, None),
        DataType::Boolean => (1, None),
        DataType::Int8 => (2, None),
        DataType::Int16 => (3, None),
        DataType::Int32 => (4, None),
        DataType::Int64 => (5, None),
        DataType::UInt8 => (6, None),
        DataType::UInt16 => (7, None),
        DataType::UInt32 => (8, None),
        DataType::UInt64 => (9, None),
        DataType::Float16 => (10, None),
        DataType::Float32 => (11, None),
        DataType::Float64 => (12, None),
        DataType::Utf8 => (13, None),
        DataType::LargeUtf8 => (14, None),
        DataType::Binary => (15, None),
        DataType::LargeBinary => (16, None),
        DataType::Date32 => (17, None),
        DataType::Date64 => (18, None),
        DataType::Timestamp(u) => (19, Some(u)),
        DataType::Time32(u) => (20, Some(u)),
        DataType::Time64(u) => (21, Some(u)),
        DataType::Duration(u) => (22, Some(u)),
    };
    out.push(tag);
    match unit {
        Some(u) => {
            let ub: u8 = match u {
                TimeUnit::Second => 0,
                TimeUnit::Millisecond => 1,
                TimeUnit::Microsecond => 2,
                TimeUnit::Nanosecond => 3,
            };
            out.push(ub);
        },
        None => {},
    }
    assert(final(out)@ =~= old(out)@ + type_bytes(t));
}

fn get_u32_le(b: &[u8], pos: usize) -> (r: Option<(u32, usize)>)
    requires
        pos <= b@.len(),
    ensures
        match r {
            None => parse_u32(b@.skip(pos as int)) is None,
            Some((n, p)) => p <= b@.len() && parse_u32(b@.skip(pos as int)) == Some(
                (n, b@.skip(p as int)),
            ),
        },
{
    if b.len() - pos < 4 {
        return None;
    }
    let n: u32 = (b[pos] as u32) | ((b[pos + 1] as u32) << 8u32) | ((b[pos + 2] as u32) << 16u32)
        | ((b[pos + 3] as u32) << 24u32);
    assert(b@.skip(pos as int).skip(4) =~= b@.skip(pos + 4));
    Some((n, pos + 4))
}

/// Relies on `std::str::from_utf8`: it accepts exactly the valid UTF-8
/// sequences, and the text it returns is the one they encode.
#[verifier::external_body]
fn utf8_to_string(bytes: &[u8]) -> (r: Option<String>)
    ensures
        match r {
            Some(s) => valid_utf8(bytes@) && s@ == decode_utf8(bytes@),
            None => !valid_utf8(bytes@),
        },
{
    match std::str::from_utf8(bytes) {
        Ok(s) => Some(s.to_string()),
        Err(_) => None,
    }
}

fn get_text(b: &[u8], pos: usize) -> (r: Option<(String, usize)>)
    requires
        pos <= b@.len(),
    ensures
        match r {
            None => parse_text(b@.skip(pos as int)) is None,
            Some((s, p)) => p <= b@.len() && parse_text(b@.skip(pos as int)) == Some(
                (s@, b@.skip(p as int)),
            ),
        },
{
    let (n, start) = match get_u32_le(b, pos) {
        None => return None,
        Some(x) => x,
    };
    let ghost rest = b@.skip(start as int);
    if b.len() - start < n as usize {
        return None;
    }
    let end = start + n as usize;
    let piece = slice_subrange(b, start, end);
    assert(piece@ =~= rest.take(n as int));
    assert(b@.skip(end as int) =~= rest.skip(n as int));
    match utf8_to_string(piece) {
        None => None,
        Some(s) => Some((s, end)),
    }
}

fn get_flag(b: &[u8], pos: usize) -> (r: Option<(bool, usize)>)
    requires
        pos <= b@.len(),
    ensures
        match r {
            None => parse_flag(b@.skip(pos as int)) is None,
            Some((f, p)) => p <= b@.len() && parse_flag(b@.skip(pos as int)) == Some(
                (f, b@.skip(p as int)),
            ),
        },
{
    if pos >= b.len() {
        return None;
    }
    assert(b@.skip(pos as int).skip(1) =~= b@.skip(pos + 1));
    if b[pos] == 0 {
        Some((false, pos + 1))
    } else if b[pos] == 1 {
        Some((true, pos + 1))
    } else {
        None
    }
}

fn get_unit(x: u8) -> (r: Option<TimeUnit>)
    ensures
        r == unit_of_byte(x),
{
    if x == 0 {
        Some(TimeUnit::Second)
    } else if x == 1 {
        Some(TimeUnit::Millisecond)
    } else if x == 2 {
        Some(TimeUnit::Microsecond)
    } else if x == 3 {
        Some(TimeUnit::Nanosecond)
    } else {
        None
    }
}

fn get_plain_type(x: u8) -> (r: Option<DataType>)
    ensures
        r == plain_type_of_tag(x),
{
    match x {
        0 => Some(DataType::Null),
        1 => Some(DataType::Boolean),
        2 => Some(DataType::Int8),
        3 => Some(DataType::Int16),
        4 => Some(DataType::Int32),
        5 => Some(DataType::Int64),
        6 => Some(DataType::UInt8),
        7 => Some(DataType::UInt16),
        8 => Some(DataType::UInt32),
        9 => Some(DataType::UInt64),
        10 => Some(DataType::Float16),
        11 => Some(DataType::Float32),
        12 => Some(DataType::Float64),
        13 => Some(DataType::Utf8),
        14 => Some(DataType::LargeUtf8),
        15 => Some(DataType::Binary),
        16 => Some(DataType::LargeBinary),
        17 => Some(DataType::Date32),
        18 => Some(DataType::Date64),
        _ => None,
    }
}

fn get_type(b: &[u8], pos: usize) -> (r: Option<(DataType, usize)>)
    requires
        pos <= b@.len(),
    ensures
        match r {
            None => parse_type(b@.skip(pos as int)) is None,
            Some((t, p)) => p <= b@.len() && parse_type(b@.skip(pos as int)) == Some(
                (t, b@.skip(p as int)),
            ),
        },
{
    if pos >= b.len() {
        return None;
    }
    let tag = b[pos];
    assert(b@.skip(pos as int).skip(1) =~= b@.skip(pos + 1));
    match get_plain_type(tag) {
        Some(t) => {
            return Some((t, pos + 1));
        },
        None => {},
    }
    if tag < 19 || tag > 22 || b.len() - pos < 2 {
        return None;
    }
    assert(b@.skip(pos as int).skip(2) =~= b@.skip(pos + 2));
    let u = match get_unit(b[pos + 1]) {
        None => return None,
        Some(u) => u,
    };
    let t = if tag == 19 {
        DataType::Timestamp(u)
    } else if tag == 20 {
        DataType::Time32(u)
    } else if tag == 21 {
        DataType::Time64(u)
    } else {
        DataType::Duration(u)
    };
    Some((t, pos + 2))
}


// ---------------------------------------------------------------------------
// Round trip
// ---------------------------------------------------------------------------

#[verifier::rlimit(40)]
proof fn lemma_parse_column(c: ColumnModel)
    requires
        column_fits(c),
    ensures
        parse_column(column_bytes(c)) == Some(c),
{
    reveal(parse_column);
    let nb = text_bytes(c.name);
    let tb = type_bytes(c.datatype);
    let rb = references_bytes(c.references);
    let r4 = rb;
    let r3 = seq![flag_byte(c.unique)] + r4;
    let r2 = seq![flag_byte(c.nullable)] + r3;
    let r1 = tb + r2;
    assert(column_bytes(c) =~= nb + r1);
    lemma_parse_text(c.name, r1);
    lemma_parse_type(c.datatype, r2);
    lemma_parse_flag(c.nullable, r3);
    lemma_parse_flag(c.unique, r4);
    match c.references {
        None => {
            assert(rb =~= seq![flag_byte(false)] + Seq::<u8>::empty());
            lemma_parse_flag(false, Seq::<u8>::empty());
        },
        Some(t) => {
            assert(rb =~= seq![flag_byte(true)] + text_bytes(t));
            lemma_parse_flag(true, text_bytes(t));
            assert(text_bytes(t) + Seq::<u8>::empty() =~= text_bytes(t));
            lemma_parse_text(t, Seq::<u8>::empty());
        },
    }
}

proof fn lemma_schema_bytes_concat(a: Seq<ColumnModel>, b: Seq<ColumnModel>)
    ensures
        schema_bytes(a + b) == schema_bytes(a) + schema_bytes(b),
    decreases a.len(),
{
    if a.len() == 0 {
        assert(a + b =~= b);
        assert(schema_bytes(a) + schema_bytes(b) =~= schema_bytes(b));
    } else {
        assert((a + b).drop_first() =~= a.drop_first() + b);
        lemma_schema_bytes_concat(a.drop_first(), b);
        assert(schema_bytes(a + b) =~= schema_bytes(a) + schema_bytes(b));
    }
}

proof fn lemma_schema_bytes_push(cols: Seq<ColumnModel>, i: int)
    requires
        0 <= i < cols.len(),
    ensures
        schema_bytes(cols.take(i + 1)) == schema_bytes(cols.take(i)) + frame(column_bytes(cols[i])),
{
    assert(cols.take(i + 1) =~= cols.take(i) + seq![cols[i]]);
    lemma_schema_bytes_concat(cols.take(i), seq![cols[i]]);
    let one = seq![cols[i]];
    assert(one.drop_first() =~= Seq::<ColumnModel>::empty());
    assert(schema_bytes(one.drop_first()) == Seq::<u8>::empty());
    assert(schema_bytes(one) == frame(column_bytes(cols[i])) + Seq::<u8>::empty());
    assert(schema_bytes(one) =~= frame(column_bytes(cols[i])));
}

/// Decoding an encoded schema gives back the same columns, in the same order;
/// the schema without columns encodes to the empty buffer.
pub proof fn lemma_round_trip(cols: Seq<ColumnModel>)
    requires
        schema_fits(cols),
    ensures
        parse_schema(schema_bytes(cols)) == Some(cols),
        cols.len() == 0 ==> schema_bytes(cols).len() == 0,
    decreases cols.len(),
{
    if cols.len() > 0 {
        let c = cols[0];
        let rec = column_bytes(c);
        let tail = cols.drop_first();
        let b = schema_bytes(cols);
        let n = rec.len() as u32;
        assert(schema_fits(tail)) by {
            assert forall|i: int| 0 <= i < tail.len() implies column_fits(#[trigger] tail[i]) by {
                assert(tail[i] == cols[i + 1]);
            }
        }
        lemma_round_trip(tail);
        lemma_parse_column(c);
        lemma_u32_le(n);
        assert(b.subrange(0, 4) =~= u32_le_bytes(n));
        assert(u32_from_le(b) == n);
        let rest = b.skip(4);
        assert(rest =~= rec + schema_bytes(tail));
        assert(rest.take(n as int) =~= rec);
        assert(rest.skip(n as int) =~= schema_bytes(tail));
        assert(seq![c] + tail =~= cols);
    }
}

// ---------------------------------------------------------------------------
// Only canonical encodings decode
// ---------------------------------------------------------------------------

proof fn lemma_le_u32_bytes(b: Seq<u8>)
    requires
        b.len() >= 4,
    ensures
        u32_le_bytes(u32_from_le(b)) == b.take(4),
{
    let (b0, b1, b2, b3) = (b[0], b[1], b[2], b[3]);
    let n = u32_from_le(b);
    assert((n & 0xff) as u8 == b0 && ((n >> 8u32) & 0xff) as u8 == b1 && ((n >> 16u32) & 0xff) as u8
        == b2 && ((n >> 24u32) & 0xff) as u8 == b3) by (bit_vector)
        requires
            n == (b0 as u32) | ((b1 as u32) << 8u32) | ((b2 as u32) << 16u32) | ((b3 as u32) << 24u32),
    ;
    assert(u32_le_bytes(n) =~= b.take(4));
}

proof fn lemma_parse_u32_inv(b: Seq<u8>)
    requires
        parse_u32(b) is Some,
    ensures
        b == u32_le_bytes(parse_u32(b).unwrap().0) + parse_u32(b).unwrap().1,
{
    lemma_le_u32_bytes(b);
    assert(b =~= b.take(4) + b.skip(4));
}

proof fn lemma_parse_text_inv(b: Seq<u8>)
    requires
        parse_text(b) is Some,
    ensures
        b == text_bytes(parse_text(b).unwrap().0) + parse_text(b).unwrap().1,
{
    lemma_parse_u32_inv(b);
    let (n, rest) = parse_u32(b).unwrap();
    let piece = rest.take(n as int);
    decode_utf8_encode_utf8(piece);
    assert(encode_utf8(decode_utf8(piece)) == piece);
    assert(rest =~= piece + rest.skip(n as int));
    assert(b =~= text_bytes(decode_utf8(piece)) + rest.skip(n as int));
}

proof fn lemma_parse_flag_inv(b: Seq<u8>)
    requires
        parse_flag(b) is Some,
    ensures
        b == seq![flag_byte(parse_flag(b).unwrap().0)] + parse_flag(b).unwrap().1,
{
    assert(b =~= seq![b[0]] + b.skip(1));
}

proof fn lemma_parse_type_inv(b: Seq<u8>)
    requires
        parse_type(b) is Some,
    ensures
        b == type_bytes(parse_type(b).unwrap().0) + parse_type(b).unwrap().1,
{
    if plain_type_of_tag(b[0]) is Some {
        assert(b =~= seq![b[0]] + b.skip(1));
    } else {
        assert(b =~= seq![b[0], b[1]] + b.skip(2));
    }
}

#[verifier::rlimit(40)]
proof fn lemma_parse_column_inv(b: Seq<u8>)
    requires
        parse_column(b) is Some,
    ensures
        column_bytes(parse_column(b).unwrap()) == b,
{
    reveal(parse_column);
    lemma_parse_text_inv(b);
    let (name, b1) = parse_text(b).unwrap();
    lemma_parse_type_inv(b1);
    let (datatype, b2) = parse_type(b1).unwrap();
    lemma_parse_flag_inv(b2);
    let (nullable, b3) = parse_flag(b2).unwrap();
    lemma_parse_flag_inv(b3);
    let (unique, b4) = parse_flag(b3).unwrap();
    lemma_parse_flag_inv(b4);
    let (has_ref, b5) = parse_flag(b4).unwrap();
    let c = parse_column(b).unwrap();
    if has_ref {
        lemma_parse_text_inv(b5);
        assert(parse_text(b5).unwrap().1.len() == 0);
        assert(b5 =~= text_bytes(parse_text(b5).unwrap().0));
        assert(b4 =~= references_bytes(c.references));
    } else {
        assert(b4 =~= references_bytes(c.references));
    }
    assert(column_bytes(c) =~= b);
}

/// Decoding accepts only what encoding produces: a buffer that decodes is
/// the encoding of the columns it decodes to.
pub proof fn lemma_only_canonical_decodes(b: Seq<u8>)
    requires
        parse_schema(b) is Some,
    ensures
        schema_bytes(parse_schema(b).unwrap()) == b,
    decreases b.len(),
{
    if b.len() > 0 {
        let n = u32_from_le(b);
        let rest = b.skip(4);
        let rec = rest.take(n as int);
        let tail = rest.skip(n as int);
        lemma_only_canonical_decodes(tail);
        lemma_parse_column_inv(rec);
        lemma_le_u32_bytes(b);
        let c = parse_column(rec).unwrap();
        let cols = parse_schema(b).unwrap();
        assert(cols[0] == c);
        assert(cols.drop_first() =~= parse_schema(tail).unwrap());
        assert(rec.len() == n as nat);
        assert(b =~= frame(rec) + tail);
    }
}

// ---------------------------------------------------------------------------
// Executable encoding and decoding
// ---------------------------------------------------------------------------

fn encode_column(column: &Column) -> (r: Vec<u8>)
    requires
        column_fits(column@),
    ensures
        r@ == column_bytes(column@),
{
    let mut out: Vec<u8> = Vec::new();
    put_text(&mut out, column.name.as_str());
    put_type(&mut out, column.datatype);
    out.push(if column.nullable { 1u8 } else { 0u8 });
    out.push(if column.unique { 1u8 } else { 0u8 });
    match &column.references {
        None => {
            out.push(0u8);
        },
        Some(r) => {
            out.push(1u8);
            put_text(&mut out, r.as_str());
        },
    }
    assert(out@ =~= column_bytes(column@));
    out
}

fn decode_column(b: &[u8]) -> (r: Option<Column>)
    ensures
        match r {
            Some(c) => parse_column(b@) == Some(c@),
            None => parse_column(b@) is None,
        },
{
    reveal(parse_column);
    assert(b@.skip(0) =~= b@);
    let (name, p1) = match get_text(b, 0) {
        None => return None,
        Some(x) => x,
    };
    let (datatype, p2) = match get_type(b, p1) {
        None => return None,
        Some(x) => x,
    };
    let (nullable, p3) = match get_flag(b, p2) {
        None => return None,
        Some(x) => x,
    };
    let (unique, p4) = match get_flag(b, p3) {
        None => return None,
        Some(x) => x,
    };
    let (has_ref, p5) = match get_flag(b, p4) {
        None => return None,
        Some(x) => x,
    };
    let (references, p6) = if has_ref {
        match get_text(b, p5) {
            None => return None,
            Some((t, p)) => (Some(t), p),
        }
    } else {
        (None, p5)
    };
    if p6 != b.len() {
        return None;
    }
    assert(b@.skip(p6 as int).len() == 0);
    Some(Column { name, datatype, nullable, unique, references })
}

impl Column {
    /// The record of one column.
    pub fn serialize_column(column: Column) -> (r: Vec<u8>)
        requires
            column_fits(column@),
        ensures
            r@ == column_bytes(column@),
    {
        encode_column(&column)
    }

    /// The column that a whole record holds; `CorruptSchema` when the record is
    /// malformed, truncated, or has trailing bytes.
    pub fn de_serialize_column(encoded: Vec<u8>) -> (r: Result<Column, CodecError>)
        ensures
            match parse_column(encoded@) {
                Some(c) => r matches Ok(col) && col@ == c,
                None => r == Err::<Column, CodecError>(CodecError::CorruptSchema),
            },
    {
        match decode_column(encoded.as_slice()) {
            Some(c) => Ok(c),
            None => Err(CodecError::CorruptSchema),
        }
    }
}

impl SchemaVec {
    pub fn new() -> (r: SchemaVec)
        ensures
            r@ == Seq::<ColumnModel>::empty(),
    {
        let r = SchemaVec { columns: Vec::new() };
        assert(r@ =~= Seq::<ColumnModel>::empty());
        r
    }

    /// Appends a column at the end.
    pub fn add(&mut self, column: Column)
        ensures
            final(self)@ == old(self)@.push(column@),
    {
        self.columns.push(column);
        assert(final(self)@ =~= old(self)@.push(column@));
    }

    /// The frames of the columns, in column order.
    pub fn serialize_schema(schema: &SchemaVec) -> (r: Vec<u8>)
        requires
            schema_fits(schema@),
        ensures
            r@ == schema_bytes(schema@),
    {
        let ghost cols = schema@;
        let mut out: Vec<u8> = Vec::new();
        let mut i: usize = 0;
        assert(cols.take(0) =~= Seq::<ColumnModel>::empty());
        while i < schema.columns.len()
            invariant
                cols == schema@,
                schema_fits(cols),
                i <= schema.columns@.len(),
                out@ == schema_bytes(cols.take(i as int)),
            decreases schema.columns@.len() - i,
        {
            assert(cols[i as int] == schema.columns@[i as int]@);
            assert(column_fits(cols[i as int]));
            let rec = encode_column(&schema.columns[i]);
            put_u32_le(&mut out, rec.len() as u32);
            put_bytes(&mut out, rec.as_slice());
            proof {
                lemma_schema_bytes_push(cols, i as int);
                assert(out@ =~= schema_bytes(cols.take(i as int)) + frame(column_bytes(cols[i as int])));
            }
            i = i + 1;
        }
        assert(cols.take(i as int) =~= cols);
        out
    }

    /// The columns an encoded schema holds; `CorruptSchema` on a truncated
    /// length prefix, a length past the end of the buffer, or a record that
    /// does not decode.
    pub fn de_serialize_schema(encoded_buf: Vec<u8>) -> (r: Result<SchemaVec, CodecError>)
        ensures
            match parse_schema(encoded_buf@) {
                Some(cols) => r matches Ok(s) && s@ == cols,
                None => r == Err::<SchemaVec, CodecError>(CodecError::CorruptSchema),
            },
    {
        let b = encoded_buf.as_slice();
        let mut columns: Vec<Column> = Vec::new();
        let mut pos: usize = 0;
        assert(b@.skip(0) =~= b@);
        assert(columns_view(columns@) + Seq::<ColumnModel>::empty() =~= Seq::<ColumnModel>::empty());
        while pos < b.len()
            invariant
                b@ == encoded_buf@,
                pos <= b@.len(),
                parse_schema(b@) == match parse_schema(b@.skip(pos as int)) {
                    Some(t) => Some(columns_view(columns@) + t),
                    None => None,
                },
            decreases b@.len() - pos,
        {
            let ghost s = b@.skip(pos as int);
            let (n, start) = match get_u32_le(b, pos) {
                None => return Err(CodecError::CorruptSchema),
                Some(x) => x,
            };
            if b.len() - start < n as usize {
                return Err(CodecError::CorruptSchema);
            }
            let end = start + n as usize;
            let rec = slice_subrange(b, start, end);
            assert(s.skip(4) =~= b@.skip(start as int));
            assert(rec@ =~= s.skip(4).take(n as int));
            assert(s.skip(4).skip(n as int) =~= b@.skip(end as int));
            let col = match decode_column(rec) {
                None => return Err(CodecError::CorruptSchema),
                Some(c) => c,
            };
            let ghost before = columns_view(columns@);
            columns.push(col);
            proof {
                assert(columns_view(columns@) =~= before.push(col@));
                match parse_schema(b@.skip(end as int)) {
                    Some(t) => {
                        assert(before + (seq![col@] + t) =~= columns_view(columns@) + t);
                    },
                    None => {},
                }
            }
            pos = end;
        }
        assert(b@.skip(pos as int) =~= Seq::<u8>::empty());
        assert(columns_view(columns@) + Seq::<ColumnModel>::empty() =~= columns_view(columns@));
        Ok(SchemaVec { columns })
    }
}

} // verus!
