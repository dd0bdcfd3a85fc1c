use crate::chtable::data::{fields_model, read_fields, TableData};
use crate::chtable::encode::{fields_are_writable, fields_byte_len, fields_fit_schema, write_fields};
use crate::chtable::parsed::lemma_parsed_fields;
use crate::chtable::property::{PropertyModel, TableHeaderProperty};
use crate::chtable::sizes::fields_bounded_len;
use crate::chtable::value::{
    FieldModel, fields_bytes, fields_fit, fields_len, fields_lens, fields_writable,
    spec_parse_fields,
};
use crate::error::{agrees, Error};
use crate::gamma::{
    gamma_bytes, gamma_length, parse_gamma, spec_gamma_length, spec_parse_gamma, write_gamma,
};
use crate::repeat::views;
use crate::text::TableString;
use crate::wire::{put_bytes, spec_take, take_bytes};
use vstd::prelude::*;

verus! {

/// One row of a table: its fields, in the order of the schema, and the
/// bytes that follow them inside the row's declared size.
pub struct RowModel {
    pub fields: Seq<FieldModel>,
    pub leftover: Seq<u8>,
}

/// One row of a sparse table: a row with its index.
pub struct SparseRowModel {
    pub index: u32,
    pub fields: Seq<FieldModel>,
    pub leftover: Seq<u8>,
}

/// One row of a table.
#[derive(Debug, PartialEq, Eq)]
pub struct ChTableElement {
    pub data: Vec<(TableString, TableData)>,
    pub leftover: Vec<u8>,
}

impl View for ChTableElement {
    type V = RowModel;

    open spec fn view(&self) -> RowModel {
        RowModel { fields: fields_model(self.data@), leftover: self.leftover@ }
    }
}

/// One row of a sparse table.
#[derive(Debug, PartialEq, Eq)]
pub struct ChSparseTableElement {
    pub index: u32,
    pub data: Vec<(TableString, TableData)>,
    pub leftover: Vec<u8>,
}

impl View for ChSparseTableElement {
    type V = SparseRowModel;

    open spec fn view(&self) -> SparseRowModel {
        SparseRowModel {
            index: self.index,
            fields: fields_model(self.data@),
            leftover: self.leftover@,
        }
    }
}

/// The size that a row declares: one more than the bytes of its fields and
/// its leftover together.
pub open spec fn row_size(row: RowModel) -> nat {
    1 + fields_len(row.fields) + row.leftover.len()
}

/// The wire form of a row: its size as a gamma, its fields, its leftover.
pub open spec fn row_bytes(row: RowModel) -> Seq<u8> {
    gamma_bytes(row_size(row) as u32) + fields_bytes(row.fields) + row.leftover
}

/// Number of bytes of the wire form of a row.
pub open spec fn row_len(row: RowModel) -> nat {
    (spec_gamma_length(row_size(row) as u32) + row_size(row) - 1) as nat
}

/// The size that a sparse row declares: one more than the bytes of its
/// index, its fields and its leftover together.
pub open spec fn sparse_row_size(row: SparseRowModel) -> nat {
    1 + spec_gamma_length(row.index) + fields_len(row.fields) + row.leftover.len()
}

/// The wire form of a sparse row: its size and its index as gammas, its
/// fields, its leftover.
pub open spec fn sparse_row_bytes(row: SparseRowModel) -> Seq<u8> {
    gamma_bytes(sparse_row_size(row) as u32) + gamma_bytes(row.index) + fields_bytes(row.fields)
        + row.leftover
}

/// Number of bytes of the wire form of a sparse row.
pub open spec fn sparse_row_len(row: SparseRowModel) -> nat {
    (spec_gamma_length(sparse_row_size(row) as u32) + sparse_row_size(row) - 1) as nat
}

/// What follows the size of a row: the fields, read against `schema` when
/// the size is more than 1, and then as many leftover bytes as the size
/// leaves after `taken` bytes and the fields. `SizeMismatch` when the size
/// is 0 or leaves less than nothing.
pub open spec fn spec_parse_row_body(
    s: Seq<u8>,
    pos: int,
    schema: Seq<PropertyModel>,
    size: u32,
    taken: int,
) -> Result<(RowModel, int), Error> {
    match (if size > 1 {
        spec_parse_fields(s, pos, schema, 0)
    } else {
        Ok((Seq::empty(), pos))
    }) {
        Err(e) => Err(e),
        Ok((fields, r)) => {
            let extra = size - 1 - taken - fields_len(fields);
            if extra < 0 {
                Err(Error::SizeMismatch)
            } else {
                match spec_take(s, r, extra) {
                    Err(e) => Err(e),
                    Ok((leftover, t)) => Ok((RowModel { fields, leftover }, t)),
                }
            }
        },
    }
}

/// Reading a row from `s` at `pos` against `schema`.
pub open spec fn spec_parse_row(s: Seq<u8>, pos: int, schema: Seq<PropertyModel>) -> Result<
    (RowModel, int),
    Error,
> {
    match spec_parse_gamma(s, pos) {
        Err(e) => Err(e),
        Ok((size, q)) => if size == 0 {
            Err(Error::SizeMismatch)
        } else {
            spec_parse_row_body(s, q, schema, size, 0)
        },
    }
}

/// Reading a sparse row from `s` at `pos` against `schema`.
pub open spec fn spec_parse_sparse_row(s: Seq<u8>, pos: int, schema: Seq<PropertyModel>) -> Result<
    (SparseRowModel, int),
    Error,
> {
    match spec_parse_gamma(s, pos) {
        Err(e) => Err(e),
        Ok((size, q)) => if size == 0 {
            Err(Error::SizeMismatch)
        } else {
            match spec_parse_gamma(s, q) {
                Err(e) => Err(e),
                Ok((index, r)) => match spec_parse_row_body(
                    s,
                    r,
                    schema,
                    size,
                    spec_gamma_length(index) as int,
                ) {
                    Err(e) => Err(e),
                    Ok((row, t)) => Ok(
                        (SparseRowModel { index, fields: row.fields, leftover: row.leftover }, t),
                    ),
                },
            }
        },
    }
}

/// A row belongs to a table of this schema: it has the fields that the
/// schema names, or it is an empty row, without fields and leftover, which
/// stands for a gap in the table.
pub open spec fn row_fits(row: RowModel, schema: Seq<PropertyModel>) -> bool {
    fields_fit(row.fields, schema) || (row.fields.len() == 0 && row.leftover.len() == 0)
}

/// All counts in the row fit 32 bits, and so does its size.
pub open spec fn row_writable(row: RowModel) -> bool {
    fields_writable(row.fields) && row_size(row) <= u32::MAX
}

/// Whether a row can be written into a table of this schema: `SizeMismatch`
/// where it does not belong to it, else `IntegerOverflow` where a count or
/// the size does not fit 32 bits.
pub open spec fn spec_check_row(row: RowModel, schema: Seq<PropertyModel>) -> Result<(), Error> {
    if !row_fits(row, schema) {
        Err(Error::SizeMismatch)
    } else if !row_writable(row) {
        Err(Error::IntegerOverflow)
    } else {
        Ok(())
    }
}

/// All counts in the sparse row fit 32 bits, and so does its size.
pub open spec fn sparse_row_writable(row: SparseRowModel) -> bool {
    fields_writable(row.fields) && sparse_row_size(row) <= u32::MAX
}

/// Whether a sparse row can be written into a table of this schema:
/// `SizeMismatch` where it has not the fields that the schema names, else
/// `IntegerOverflow` where a count or the size does not fit 32 bits.
pub open spec fn spec_check_sparse_row(row: SparseRowModel, schema: Seq<PropertyModel>) -> Result<
    (),
    Error,
> {
    if !fields_fit(row.fields, schema) {
        Err(Error::SizeMismatch)
    } else if !sparse_row_writable(row) {
        Err(Error::IntegerOverflow)
    } else {
        Ok(())
    }
}

/// Reads what follows the size of a row.
fn read_row_body(data: &[u8], pos: usize, schema: &Vec<TableHeaderProperty>, size: u32, taken: u32) -> (res:
    Result<(ChTableElement, usize), Error>)
    requires
        pos <= data.len(),
        taken <= 5,
        size >= 1,
    ensures
        agrees(res, spec_parse_row_body(data@, pos as int, views(schema@), size, taken as int)),
        res matches Ok((_, p)) ==> pos <= p <= data.len(),
{
    let ghost s = data@;
    let ghost tree = views(schema@);
    let (fields, r) = if size > 1 {
        match read_fields(data, pos, schema) {
            Ok(x) => x,
            Err(e) => {
                return Err(e);
            },
        }
    } else {
        (Vec::new(), pos)
    };
    proof {
        if size > 1 {
            lemma_parsed_fields(s, pos as int, tree, 0, fields_model(fields@), r as int);
        } else {
            assert(fields_model(fields@) =~= Seq::<FieldModel>::empty());
            assert(fields_lens(fields_model(fields@)) =~= Seq::<
                nat,
            >::empty());
        }
    }
    let used = fields_byte_len(&fields);
    let room: usize = (size - 1) as usize;
    if room < taken as usize || room - (taken as usize) < used {
        return Err(Error::SizeMismatch);
    }
    let extra: usize = room - taken as usize - used;
    match take_bytes(data, r, extra) {
        Ok((leftover, t)) => Ok((ChTableElement { data: fields, leftover }, t)),
        Err(e) => Err(e),
    }
}

impl ChTableElement {
    /// Reads a row from `data` at `pos` against `schema`.
    pub fn read(data: &[u8], pos: usize, schema: &Vec<TableHeaderProperty>) -> (res: Result<
        (ChTableElement, usize),
        Error,
    >)
        ensures
            agrees(res, spec_parse_row(data@, pos as int, views(schema@))),
            res matches Ok((_, p)) ==> pos < p <= data.len(),
    {
        let (size, q) = match parse_gamma(data, pos) {
            Ok(r) => r,
            Err(e) => {
                return Err(e);
            },
        };
        if size == 0 {
            return Err(Error::SizeMismatch);
        }
        read_row_body(data, q, schema, size, 0)
    }

    /// Whether the row can be written into a table of this schema, and if
    /// not, why.
    pub fn check(&self, schema: &Vec<TableHeaderProperty>) -> (res: Result<(), Error>)
        ensures
            res == spec_check_row(self@, views(schema@)),
    {
        if !(fields_fit_schema(&self.data, schema) || (self.data.len() == 0 && self.leftover.len()
            == 0)) {
            return Err(Error::SizeMismatch);
        }
        if !fields_are_writable(&self.data) {
            return Err(Error::IntegerOverflow);
        }
        match fields_bounded_len(&self.data, 0xFFFF_FFFE) {
            None => Err(Error::IntegerOverflow),
            Some(n) => if self.leftover.len() > 0xFFFF_FFFE - n {
                Err(Error::IntegerOverflow)
            } else {
                Ok(())
            },
        }
    }

    /// Appends the wire form to `out`. The leftover bytes are the last bytes
    /// written.
    pub fn write(&self, out: &mut Vec<u8>)
        requires
            row_writable(self@),
        ensures
            final(out)@ == old(out)@ + row_bytes(self@),
    {
        let size = 1 + fields_byte_len(&self.data) + self.leftover.len();
        write_gamma(size as u32, out);
        write_fields(&self.data, out);
        put_bytes(self.leftover.as_slice(), out);
        assert(out@ =~= old(out)@ + row_bytes(self@));
    }
}

impl ChSparseTableElement {
    /// Reads a sparse row from `data` at `pos` against `schema`.
    pub fn read(data: &[u8], pos: usize, schema: &Vec<TableHeaderProperty>) -> (res: Result<
        (ChSparseTableElement, usize),
        Error,
    >)
        ensures
            agrees(res, spec_parse_sparse_row(data@, pos as int, views(schema@))),
            res matches Ok((_, p)) ==> pos < p <= data.len(),
    {
        let (size, q) = match parse_gamma(data, pos) {
            Ok(r) => r,
            Err(e) => {
                return Err(e);
            },
        };
        if size == 0 {
            return Err(Error::SizeMismatch);
        }
        let (index, r) = match parse_gamma(data, q) {
            Ok(r) => r,
            Err(e) => {
                return Err(e);
            },
        };
        match read_row_body(data, r, schema, size, gamma_length(index)) {
            Ok((row, t)) => Ok(
                (ChSparseTableElement { index, data: row.data, leftover: row.leftover }, t),
            ),
            Err(e) => Err(e),
        }
    }

    /// Whether the row can be written into a sparse table of this schema,
    /// and if not, why.
    pub fn check(&self, schema: &Vec<TableHeaderProperty>) -> (res: Result<(), Error>)
        ensures
            res == spec_check_sparse_row(self@, views(schema@)),
    {
        if !fields_fit_schema(&self.data, schema) {
            return Err(Error::SizeMismatch);
        }
        if !fields_are_writable(&self.data) {
            return Err(Error::IntegerOverflow);
        }
        let limit: usize = 0xFFFF_FFFE - gamma_length(self.index) as usize;
        match fields_bounded_len(&self.data, limit) {
            None => Err(Error::IntegerOverflow),
            Some(n) => if self.leftover.len() > limit - n {
                Err(Error::IntegerOverflow)
            } else {
                Ok(())
            },
        }
    }

    /// Appends the wire form to `out`. The leftover bytes are the last bytes
    /// written.
    pub fn write(&self, out: &mut Vec<u8>)
        requires
            sparse_row_writable(self@),
        ensures
            final(out)@ == old(out)@ + sparse_row_bytes(self@),
    {
        let size = 1 + gamma_length(self.index) as usize + fields_byte_len(&self.data)
            + self.leftover.len();
        write_gamma(size as u32, out);
        write_gamma(self.index, out);
        write_fields(&self.data, out);
        put_bytes(self.leftover.as_slice(), out);
        assert(out@ =~= old(out)@ + sparse_row_bytes(self@));
    }
}

} // verus!
