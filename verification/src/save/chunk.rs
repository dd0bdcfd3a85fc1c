use crate::chtable::property::{
    check_schema, lemma_header_of, lemma_schema_ok, PropertyModel, read_schema, schema_bytes,
    schema_len, schema_ok, spec_check_schema, spec_parse_schema, TableHeaderProperty,
};
use crate::chtable::row::{ChSparseTableElement, ChTableElement, RowModel, SparseRowModel};
use crate::chtable::schema::StructHeader;
use crate::error::{agrees, Error};
use crate::gamma::{gamma_bytes, parse_gamma, spec_parse_gamma, write_gamma};
use crate::repeat::views;
use crate::save::array::{ChArrayElement, ChSparseArrayElement, SparseArrayRowModel};
use crate::save::rows::{
    check_rows, read_rows, rows_bytes, spec_check_rows, spec_read_rows, write_rows,
};
use crate::wire::{put_bytes, spec_take, take_bytes};
use vstd::prelude::*;

verus! {

/// What a chunk holds, by shape.
pub enum ChunkValueModel {
    Riff(Seq<u8>),
    Array(Seq<Seq<u8>>),
    SparseArray(Seq<SparseArrayRowModel>),
    Table(Seq<PropertyModel>, Seq<RowModel>),
    SparseTable(Seq<PropertyModel>, Seq<SparseRowModel>),
}

/// What a chunk holds: opaque bytes, rows of opaque bytes, or a schema with
/// its typed rows.
#[derive(Debug, PartialEq, Eq)]
pub enum ChunkValue {
    ChRiff { data: Vec<u8> },
    ChArray { elements: Vec<ChArrayElement> },
    ChSparseArray { elements: Vec<ChSparseArrayElement> },
    ChTable { header: Vec<TableHeaderProperty>, elements: Vec<ChTableElement> },
    ChSparseTable { header: Vec<TableHeaderProperty>, elements: Vec<ChSparseTableElement> },
}

impl View for ChunkValue {
    type V = ChunkValueModel;

    open spec fn view(&self) -> ChunkValueModel {
        match *self {
            ChunkValue::ChRiff { data } => ChunkValueModel::Riff(data@),
            ChunkValue::ChArray { elements } => ChunkValueModel::Array(views(elements@)),
            ChunkValue::ChSparseArray { elements } => ChunkValueModel::SparseArray(
                views(elements@),
            ),
            ChunkValue::ChTable { header, elements } => ChunkValueModel::Table(
                views(header@),
                views(elements@),
            ),
            ChunkValue::ChSparseTable { header, elements } => ChunkValueModel::SparseTable(
                views(header@),
                views(elements@),
            ),
        }
    }
}

/// The shape byte of a chunk, taken apart: the shape in the low four bits,
/// and in the high four bits the top of the length of a RIFF payload.
#[derive(Debug, Clone, Copy, PartialEq, Eq, Structural)]
pub struct ChunkType {
    pub chunk_type: u8,
    pub riff_size: u8,
}

/// The number that stands for the shape of a value: 0 to 4.
pub open spec fn shape_kind(v: ChunkValueModel) -> u8 {
    match v {
        ChunkValueModel::Riff(_) => 0,
        ChunkValueModel::Array(_) => 1,
        ChunkValueModel::SparseArray(_) => 2,
        ChunkValueModel::Table(_, _) => 3,
        ChunkValueModel::SparseTable(_, _) => 4,
    }
}

/// The top of the length of a RIFF payload, above its low 24 bits; 0 for
/// the other shapes.
pub open spec fn shape_high(v: ChunkValueModel) -> int {
    match v {
        ChunkValueModel::Riff(d) => d.len() as int / 0x100_0000,
        _ => 0,
    }
}

/// The shape byte of a value.
pub open spec fn shape_byte(v: ChunkValueModel) -> u8 {
    (shape_high(v) * 16 + shape_kind(v)) as u8
}

impl ChunkType {
    /// Both parts are four bits wide.
    pub open spec fn wf(self) -> bool {
        self.chunk_type < 16 && self.riff_size < 16
    }

    /// The shape byte that the two parts make.
    pub open spec fn spec_byte(self) -> u8 {
        (self.riff_size * 16 + self.chunk_type) as u8
    }

    /// Takes a shape byte apart.
    pub fn from_byte(b: u8) -> (t: ChunkType)
        ensures
            t.chunk_type == b % 16,
            t.riff_size == b / 16,
            t.wf(),
            t.spec_byte() == b,
    {
        ChunkType { chunk_type: b % 16, riff_size: b / 16 }
    }

    /// Puts a shape byte together.
    pub fn to_byte(&self) -> (b: u8)
        requires
            self.wf(),
        ensures
            b == self.spec_byte(),
    {
        self.riff_size * 16 + self.chunk_type
    }

    /// The shape byte of a value whose RIFF payload, if it is one, is
    /// shorter than 2^28 bytes.
    pub fn get_chunk_type(chunk: &ChunkValue) -> (t: ChunkType)
        requires
            chunk@ matches ChunkValueModel::Riff(d) ==> d.len() < 0x1000_0000,
        ensures
            t.chunk_type == shape_kind(chunk@),
            t.riff_size == shape_high(chunk@),
            t.wf(),
            t.spec_byte() == shape_byte(chunk@),
    {
        match chunk {
            ChunkValue::ChRiff { data } => ChunkType {
                chunk_type: 0,
                riff_size: (data.len() / 0x100_0000) as u8,
            },
            ChunkValue::ChArray { .. } => ChunkType { chunk_type: 1, riff_size: 0 },
            ChunkValue::ChSparseArray { .. } => ChunkType { chunk_type: 2, riff_size: 0 },
            ChunkValue::ChTable { .. } => ChunkType { chunk_type: 3, riff_size: 0 },
            ChunkValue::ChSparseTable { .. } => ChunkType { chunk_type: 4, riff_size: 0 },
        }
    }
}

/// The length of a RIFF payload: the three bytes of `s` at `pos`, most
/// significant first, under the four bits `high`.
pub open spec fn riff_size_at(s: Seq<u8>, pos: int, high: int) -> int {
    high * 0x100_0000 + s[pos] * 0x1_0000 + s[pos + 1] * 0x100 + s[pos + 2]
}

/// The three bytes that hold the low 24 bits of the length of a RIFF
/// payload.
pub open spec fn riff_size_bytes(len: nat) -> Seq<u8> {
    seq![(len / 0x1_0000 % 0x100) as u8, (len / 0x100 % 0x100) as u8, (len % 0x100) as u8]
}

/// Reading what follows the shape byte `shape` from `s` at `pos`. For a
/// table, the gamma in front of the schema is read and not looked at.
/// `InvalidChunk` where the low four bits of `shape` name no shape.
pub open spec fn spec_parse_chunk_value(s: Seq<u8>, pos: int, shape: u8) -> Result<
    (ChunkValueModel, int),
    Error,
> {
    let kind = shape % 16;
    if kind == 0 {
        if pos < 0 || pos + 3 > s.len() {
            Err(Error::Truncated)
        } else {
            match spec_take(s, pos + 3, riff_size_at(s, pos, shape as int / 16)) {
                Err(e) => Err(e),
                Ok((d, q)) => Ok((ChunkValueModel::Riff(d), q)),
            }
        }
    } else if kind == 1 {
        match spec_read_rows::<ChArrayElement>(s, pos, Seq::empty()) {
            Err(e) => Err(e),
            Ok((rows, q)) => Ok((ChunkValueModel::Array(rows), q)),
        }
    } else if kind == 2 {
        match spec_read_rows::<ChSparseArrayElement>(s, pos, Seq::empty()) {
            Err(e) => Err(e),
            Ok((rows, q)) => Ok((ChunkValueModel::SparseArray(rows), q)),
        }
    } else if kind == 3 {
        match spec_parse_gamma(s, pos) {
            Err(e) => Err(e),
            Ok((_, q)) => match spec_parse_schema(s, q) {
                Err(e) => Err(e),
                Ok((schema, r)) => match spec_read_rows::<ChTableElement>(s, r, schema) {
                    Err(e) => Err(e),
                    Ok((rows, t)) => Ok((ChunkValueModel::Table(schema, rows), t)),
                },
            },
        }
    } else if kind == 4 {
        match spec_parse_gamma(s, pos) {
            Err(e) => Err(e),
            Ok((_, q)) => match spec_parse_schema(s, q) {
                Err(e) => Err(e),
                Ok((schema, r)) => match spec_read_rows::<ChSparseTableElement>(s, r, schema) {
                    Err(e) => Err(e),
                    Ok((rows, t)) => Ok((ChunkValueModel::SparseTable(schema, rows), t)),
                },
            },
        }
    } else {
        Err(Error::InvalidChunk)
    }
}

/// What follows the schema-size gamma of a table on the wire: the size that
/// is written is one more than the length of the schema.
pub open spec fn table_head_bytes(schema: Seq<PropertyModel>) -> Seq<u8> {
    gamma_bytes((schema_len(schema) + 1) as u32) + schema_bytes(schema)
}

/// What follows the shape byte of a value on the wire.
pub open spec fn value_body_bytes(v: ChunkValueModel) -> Seq<u8> {
    match v {
        ChunkValueModel::Riff(d) => riff_size_bytes(d.len()) + d,
        ChunkValueModel::Array(rows) => rows_bytes::<ChArrayElement>(rows),
        ChunkValueModel::SparseArray(rows) => rows_bytes::<ChSparseArrayElement>(rows),
        ChunkValueModel::Table(schema, rows) => table_head_bytes(schema) + rows_bytes::<
            ChTableElement,
        >(rows),
        ChunkValueModel::SparseTable(schema, rows) => table_head_bytes(schema) + rows_bytes::<
            ChSparseTableElement,
        >(rows),
    }
}

/// Whether the head of a table can be written: the error of its schema,
/// else `IntegerOverflow` where the length of the schema, plus one, does
/// not fit 32 bits.
pub open spec fn spec_check_table_head(schema: Seq<PropertyModel>) -> Result<(), Error> {
    match spec_check_schema(schema) {
        Err(e) => Err(e),
        Ok(_) => if schema_len(schema) + 1 > u32::MAX {
            Err(Error::IntegerOverflow)
        } else {
            Ok(())
        },
    }
}

/// Whether a value can be written, and if not, why: `IntegerOverflow` for a
/// RIFF payload of 2^28 bytes or more; for rows, the error of the first row
/// that cannot be written; for a table, first the error of its head.
pub open spec fn spec_check_value(v: ChunkValueModel) -> Result<(), Error> {
    match v {
        ChunkValueModel::Riff(d) => if d.len() < 0x1000_0000 {
            Ok(())
        } else {
            Err(Error::IntegerOverflow)
        },
        ChunkValueModel::Array(rows) => spec_check_rows::<ChArrayElement>(rows, Seq::empty()),
        ChunkValueModel::SparseArray(rows) => spec_check_rows::<ChSparseArrayElement>(
            rows,
            Seq::empty(),
        ),
        ChunkValueModel::Table(schema, rows) => match spec_check_table_head(schema) {
            Err(e) => Err(e),
            Ok(_) => spec_check_rows::<ChTableElement>(rows, schema),
        },
        ChunkValueModel::SparseTable(schema, rows) => match spec_check_table_head(schema) {
            Err(e) => Err(e),
            Ok(_) => spec_check_rows::<ChSparseTableElement>(rows, schema),
        },
    }
}

/// Whether the head of a table can be written, and if not, why.
fn check_table_head(header: &Vec<TableHeaderProperty>) -> (res: Result<(), Error>)
    ensures
        res == spec_check_table_head(views(header@)),
        res is Ok ==> schema_ok(views(header@)),
{
    match check_schema(header) {
        Err(e) => {
            return Err(e);
        },
        Ok(_) => {},
    }
    let wire = StructHeader::from_properties(header);
    proof {
        lemma_header_of(views(header@));
    }
    match wire.bounded_len(0xFFFF_FFFE) {
        None => Err(Error::IntegerOverflow),
        Some(_) => Ok(()),
    }
}

/// Appends the head of a table to `out`: one more than the length of the
/// schema as a gamma, then the schema.
fn write_table_head(header: &Vec<TableHeaderProperty>, out: &mut Vec<u8>)
    requires
        spec_check_table_head(views(header@)) is Ok,
        schema_ok(views(header@)),
    ensures
        final(out)@ == old(out)@ + table_head_bytes(views(header@)),
{
    let wire = StructHeader::from_properties(header);
    proof {
        lemma_header_of(views(header@));
    }
    let n = wire.byte_len();
    write_gamma((n + 1) as u32, out);
    wire.write(out);
    assert(out@ =~= old(out)@ + table_head_bytes(views(header@)));
}

/// Reads the head of a table from `data` at `pos`: a gamma, which is not
/// looked at, then the schema.
fn read_table_head(data: &[u8], pos: usize) -> (res: Result<(Vec<TableHeaderProperty>, usize), Error>)
    ensures
        match spec_parse_gamma(data@, pos as int) {
            Err(e) => res matches Err(f) && e == f,
            Ok((_, q)) => match spec_parse_schema(data@, q) {
                Err(e) => res matches Err(f) && e == f,
                Ok((schema, r)) => res matches Ok((v, p)) && views(v@) == schema && p == r && pos
                    < p <= data.len(),
            },
        },
{
    let (_, q) = match parse_gamma(data, pos) {
        Ok(r) => r,
        Err(e) => {
            return Err(e);
        },
    };
    match read_schema(data, q) {
        Ok((v, p)) => Ok((v, p)),
        Err(e) => Err(e),
    }
}

impl ChunkValue {
    /// Reads what follows the shape byte of a chunk from `data` at `pos`.
    pub fn read(data: &[u8], pos: usize, chunk_type: ChunkType) -> (res: Result<
        (ChunkValue, usize),
        Error,
    >)
        requires
            chunk_type.wf(),
        ensures
            agrees(res, spec_parse_chunk_value(data@, pos as int, chunk_type.spec_byte())),
            res matches Ok((_, p)) ==> pos < p <= data.len(),
    {
        let none: Vec<TableHeaderProperty> = Vec::new();
        assert(views(none@) =~= Seq::<PropertyModel>::empty());
        if chunk_type.chunk_type == 0 {
            if pos > data.len() || data.len() - pos < 3 {
                return Err(Error::Truncated);
            }
            let b0: usize = data[pos] as usize;
            let b1: usize = data[pos + 1] as usize;
            let b2: usize = data[pos + 2] as usize;
            let n: usize = (chunk_type.riff_size as usize) * 0x100_0000 + b0 * 0x1_0000 + b1
                * 0x100 + b2;
            match take_bytes(data, pos + 3, n) {
                Ok((d, p)) => Ok((ChunkValue::ChRiff { data: d }, p)),
                Err(e) => Err(e),
            }
        } else if chunk_type.chunk_type == 1 {
            match read_rows::<ChArrayElement>(data, pos, &none) {
                Ok((elements, p)) => Ok((ChunkValue::ChArray { elements }, p)),
                Err(e) => Err(e),
            }
        } else if chunk_type.chunk_type == 2 {
            match read_rows::<ChSparseArrayElement>(data, pos, &none) {
                Ok((elements, p)) => Ok((ChunkValue::ChSparseArray { elements }, p)),
                Err(e) => Err(e),
            }
        } else if chunk_type.chunk_type == 3 {
            let (header, r) = match read_table_head(data, pos) {
                Ok(x) => x,
                Err(e) => {
                    return Err(e);
                },
            };
            match read_rows::<ChTableElement>(data, r, &header) {
                Ok((elements, p)) => Ok((ChunkValue::ChTable { header, elements }, p)),
                Err(e) => Err(e),
            }
        } else if chunk_type.chunk_type == 4 {
            let (header, r) = match read_table_head(data, pos) {
                Ok(x) => x,
                Err(e) => {
                    return Err(e);
                },
            };
            match read_rows::<ChSparseTableElement>(data, r, &header) {
                Ok((elements, p)) => Ok((ChunkValue::ChSparseTable { header, elements }, p)),
                Err(e) => Err(e),
            }
        } else {
            Err(Error::InvalidChunk)
        }
    }

    /// Whether the value can be written, and if not, why.
    pub fn check(&self) -> (res: Result<(), Error>)
        ensures
            res == spec_check_value(self@),
    {
        let none: Vec<TableHeaderProperty> = Vec::new();
        assert(views(none@) =~= Seq::<PropertyModel>::empty());
        match self {
            ChunkValue::ChRiff { data } => if data.len() < 0x1000_0000 {
                Ok(())
            } else {
                Err(Error::IntegerOverflow)
            },
            ChunkValue::ChArray { elements } => check_rows(elements, &none),
            ChunkValue::ChSparseArray { elements } => check_rows(elements, &none),
            ChunkValue::ChTable { header, elements } => match check_table_head(header) {
                Err(e) => Err(e),
                Ok(_) => check_rows(elements, header),
            },
            ChunkValue::ChSparseTable { header, elements } => match check_table_head(header) {
                Err(e) => Err(e),
                Ok(_) => check_rows(elements, header),
            },
        }
    }

    /// Appends what follows the shape byte to `out`.
    pub fn write(&self, out: &mut Vec<u8>)
        requires
            spec_check_value(self@) is Ok,
        ensures
            final(out)@ == old(out)@ + value_body_bytes(self@),
    {
        let none: Vec<TableHeaderProperty> = Vec::new();
        assert(views(none@) =~= Seq::<PropertyModel>::empty());
        match self {
            ChunkValue::ChRiff { data } => {
                let n = data.len();
                out.push((n / 0x1_0000 % 0x100) as u8);
                out.push((n / 0x100 % 0x100) as u8);
                out.push((n % 0x100) as u8);
                put_bytes(data.as_slice(), out);
                assert(out@ =~= old(out)@ + value_body_bytes(self@));
            },
            ChunkValue::ChArray { elements } => write_rows(elements, &none, out),
            ChunkValue::ChSparseArray { elements } => write_rows(elements, &none, out),
            ChunkValue::ChTable { header, elements } => {
                proof {
                    lemma_schema_ok(header@);
                }
                write_table_head(header, out);
                write_rows(elements, header, out);
                assert(out@ =~= old(out)@ + value_body_bytes(self@));
            },
            ChunkValue::ChSparseTable { header, elements } => {
                proof {
                    lemma_schema_ok(header@);
                }
                write_table_head(header, out);
                write_rows(elements, header, out);
                assert(out@ =~= old(out)@ + value_body_bytes(self@));
            },
        }
    }
}

} // verus!
