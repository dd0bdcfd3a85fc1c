use crate::chtable::canonical::{canonical_gamma, lemma_written_gamma};
use crate::chtable::parsed::lemma_parsed_gamma;
use crate::error::{agrees, Error};
use crate::gamma::{
    gamma_bytes, gamma_length, lemma_gamma_bytes_len, lemma_gamma_parse_at, parse_gamma,
    spec_gamma_length, spec_parse_gamma, write_gamma,
};
use crate::repeat::lemma_subrange_join;
use crate::wire::{has_at, lemma_has_at_split, put_bytes, spec_take, take_bytes};
use vstd::prelude::*;

verus! {

/// One row of a sparse array: its index and its bytes.
pub struct SparseArrayRowModel {
    pub index: u32,
    pub data: Seq<u8>,
}

/// One row of an array chunk: opaque bytes.
#[derive(Debug, Clone, PartialEq, Eq)]
pub struct ChArrayElement {
    pub data: Vec<u8>,
}

impl View for ChArrayElement {
    type V = Seq<u8>;

    open spec fn view(&self) -> Seq<u8> {
        self.data@
    }
}

/// One row of a sparse array chunk: an index and opaque bytes.
#[derive(Debug, Clone, PartialEq, Eq)]
pub struct ChSparseArrayElement {
    pub index: u32,
    pub data: Vec<u8>,
}

impl View for ChSparseArrayElement {
    type V = SparseArrayRowModel;

    open spec fn view(&self) -> SparseArrayRowModel {
        SparseArrayRowModel { index: self.index, data: self.data@ }
    }
}

/// The wire form of an array row: one more than its length as a gamma, then
/// its bytes.
pub open spec fn array_row_bytes(data: Seq<u8>) -> Seq<u8> {
    gamma_bytes((1 + data.len()) as u32) + data
}

/// Number of bytes of the wire form of an array row.
pub open spec fn array_row_len(data: Seq<u8>) -> nat {
    spec_gamma_length((1 + data.len()) as u32) + data.len()
}

/// The size that a sparse array row declares: one more than the bytes of
/// its index and its data together.
pub open spec fn sparse_array_row_size(row: SparseArrayRowModel) -> nat {
    1 + spec_gamma_length(row.index) + row.data.len()
}

/// The wire form of a sparse array row: its size and its index as gammas,
/// then its bytes.
pub open spec fn sparse_array_row_bytes(row: SparseArrayRowModel) -> Seq<u8> {
    gamma_bytes(sparse_array_row_size(row) as u32) + gamma_bytes(row.index) + row.data
}

/// Number of bytes of the wire form of a sparse array row.
pub open spec fn sparse_array_row_len(row: SparseArrayRowModel) -> nat {
    (spec_gamma_length(sparse_array_row_size(row) as u32) + sparse_array_row_size(row) - 1) as nat
}

/// Reading an array row from `s` at `pos`: a size, then one byte less than
/// the size says (none for a size of 0).
pub open spec fn spec_parse_array_row(s: Seq<u8>, pos: int) -> Result<(Seq<u8>, int), Error> {
    match spec_parse_gamma(s, pos) {
        Err(e) => Err(e),
        Ok((size, q)) => spec_take(
            s,
            q,
            if size >= 1 {
                size - 1
            } else {
                0
            },
        ),
    }
}

/// Reading a sparse array row from `s` at `pos`: a size, an index, then as
/// many bytes as the size leaves after one byte and the shortest form of
/// the index (none where it leaves less than nothing).
pub open spec fn spec_parse_sparse_array_row(s: Seq<u8>, pos: int) -> Result<
    (SparseArrayRowModel, int),
    Error,
> {
    match spec_parse_gamma(s, pos) {
        Err(e) => Err(e),
        Ok((size, q)) => match spec_parse_gamma(s, q) {
            Err(e) => Err(e),
            Ok((index, r)) => match spec_take(
                s,
                r,
                if size >= 1 + spec_gamma_length(index) {
                    size - 1 - spec_gamma_length(index)
                } else {
                    0
                },
            ) {
                Err(e) => Err(e),
                Ok((data, t)) => Ok((SparseArrayRowModel { index, data }, t)),
            },
        },
    }
}

/// The size of the row fits 32 bits.
pub open spec fn array_row_writable(data: Seq<u8>) -> bool {
    1 + data.len() <= u32::MAX
}

/// The size of the sparse row fits 32 bits.
pub open spec fn sparse_array_row_writable(row: SparseArrayRowModel) -> bool {
    sparse_array_row_size(row) <= u32::MAX
}

impl ChArrayElement {
    /// Reads an array row from `data` at `pos`.
    pub fn read(data: &[u8], pos: usize) -> (res: Result<(ChArrayElement, usize), Error>)
        ensures
            agrees(res, spec_parse_array_row(data@, pos as int)),
            res matches Ok((_, p)) ==> pos < p <= data.len(),
    {
        let (size, q) = match parse_gamma(data, pos) {
            Ok(r) => r,
            Err(e) => {
                return Err(e);
            },
        };
        let n: usize = if size >= 1 {
            (size - 1) as usize
        } else {
            0
        };
        match take_bytes(data, q, n) {
            Ok((bytes, p)) => Ok((ChArrayElement { data: bytes }, p)),
            Err(e) => Err(e),
        }
    }

    /// Whether the row can be written: `IntegerOverflow` where its size
    /// does not fit 32 bits.
    pub fn check(&self) -> (res: Result<(), Error>)
        ensures
            res == (if array_row_writable(self@) {
                Ok::<(), Error>(())
            } else {
                Err::<(), Error>(Error::IntegerOverflow)
            }),
    {
        if self.data.len() > 0xFFFF_FFFE {
            Err(Error::IntegerOverflow)
        } else {
            Ok(())
        }
    }

    /// Appends the wire form to `out`.
    pub fn write(&self, out: &mut Vec<u8>)
        requires
            array_row_writable(self@),
        ensures
            final(out)@ == old(out)@ + array_row_bytes(self@),
    {
        write_gamma((1 + self.data.len()) as u32, out);
        put_bytes(self.data.as_slice(), out);
        assert(out@ =~= old(out)@ + array_row_bytes(self@));
    }
}

impl ChSparseArrayElement {
    /// Reads a sparse array row from `data` at `pos`.
    pub fn read(data: &[u8], pos: usize) -> (res: Result<(ChSparseArrayElement, usize), Error>)
        ensures
            agrees(res, spec_parse_sparse_array_row(data@, pos as int)),
            res matches Ok((_, p)) ==> pos < p <= data.len(),
    {
        let (size, q) = match parse_gamma(data, pos) {
            Ok(r) => r,
            Err(e) => {
                return Err(e);
            },
        };
        let (index, r) = match parse_gamma(data, q) {
            Ok(r) => r,
            Err(e) => {
                return Err(e);
            },
        };
        let head: u32 = 1 + gamma_length(index);
        let n: usize = if size >= head {
            (size - head) as usize
        } else {
            0
        };
        match take_bytes(data, r, n) {
            Ok((bytes, p)) => Ok((ChSparseArrayElement { index, data: bytes }, p)),
            Err(e) => Err(e),
        }
    }

    /// Whether the row can be written: `IntegerOverflow` where its size
    /// does not fit 32 bits.
    pub fn check(&self) -> (res: Result<(), Error>)
        ensures
            res == (if sparse_array_row_writable(self@) {
                Ok::<(), Error>(())
            } else {
                Err::<(), Error>(Error::IntegerOverflow)
            }),
    {
        if self.data.len() > 0xFFFF_FFFE - gamma_length(self.index) as usize {
            Err(Error::IntegerOverflow)
        } else {
            Ok(())
        }
    }

    /// Appends the wire form to `out`.
    pub fn write(&self, out: &mut Vec<u8>)
        requires
            sparse_array_row_writable(self@),
        ensures
            final(out)@ == old(out)@ + sparse_array_row_bytes(self@),
    {
        let size: usize = 1 + gamma_length(self.index) as usize + self.data.len();
        write_gamma(size as u32, out);
        write_gamma(self.index, out);
        put_bytes(self.data.as_slice(), out);
        assert(out@ =~= old(out)@ + sparse_array_row_bytes(self@));
    }
}

/// Wherever the wire form of an array row stands, reading an array row
/// there gives the row back and stops right behind it.
pub proof fn lemma_array_row_round_trip(data: Seq<u8>, s: Seq<u8>, pos: int)
    requires
        array_row_writable(data),
        has_at(s, pos, array_row_bytes(data)),
    ensures
        spec_parse_array_row(s, pos) == Ok::<(Seq<u8>, int), Error>(
            (data, pos + array_row_len(data)),
        ),
        array_row_bytes(data).len() == array_row_len(data),
        array_row_bytes(data)[0] != 0,
{
    let size = (1 + data.len()) as u32;
    lemma_has_at_split(s, pos, gamma_bytes(size), data);
    lemma_gamma_parse_at(s, pos, size);
    lemma_gamma_bytes_len(size);
}

/// Wherever the wire form of a sparse array row stands, reading a sparse
/// array row there gives the row back and stops right behind it.
pub proof fn lemma_sparse_array_row_round_trip(row: SparseArrayRowModel, s: Seq<u8>, pos: int)
    requires
        sparse_array_row_writable(row),
        has_at(s, pos, sparse_array_row_bytes(row)),
    ensures
        spec_parse_sparse_array_row(s, pos) == Ok::<(SparseArrayRowModel, int), Error>(
            (row, pos + sparse_array_row_len(row)),
        ),
        sparse_array_row_bytes(row).len() == sparse_array_row_len(row),
        sparse_array_row_bytes(row)[0] != 0,
{
    let size = sparse_array_row_size(row) as u32;
    let g = gamma_bytes(size);
    let gi = gamma_bytes(row.index);
    assert(sparse_array_row_bytes(row) =~= g + (gi + row.data));
    lemma_has_at_split(s, pos, g, gi + row.data);
    lemma_gamma_parse_at(s, pos, size);
    lemma_gamma_bytes_len(size);
    let q = pos + spec_gamma_length(size);
    lemma_has_at_split(s, q, gi, row.data);
    lemma_gamma_parse_at(s, q, row.index);
    lemma_gamma_bytes_len(row.index);
}

/// An array row that was read can be written, and it stands inside the
/// input.
pub proof fn lemma_parsed_array_row(s: Seq<u8>, pos: int, data: Seq<u8>, q: int)
    requires
        spec_parse_array_row(s, pos) == Ok::<(Seq<u8>, int), Error>((data, q)),
    ensures
        array_row_writable(data),
        0 <= pos < q <= s.len(),
{
    let (size, p) = spec_parse_gamma(s, pos).unwrap();
    lemma_parsed_gamma(s, pos, size, p);
}

/// A sparse array row that was read can be written, and it stands inside
/// the input.
pub proof fn lemma_parsed_sparse_array_row(s: Seq<u8>, pos: int, row: SparseArrayRowModel, q: int)
    requires
        spec_parse_sparse_array_row(s, pos) == Ok::<(SparseArrayRowModel, int), Error>((row, q)),
    ensures
        sparse_array_row_writable(row),
        0 <= pos < q <= s.len(),
{
    let (size, p) = spec_parse_gamma(s, pos).unwrap();
    lemma_parsed_gamma(s, pos, size, p);
    let (index, r) = spec_parse_gamma(s, p).unwrap();
    lemma_parsed_gamma(s, p, index, r);
}

/// An array row stands in `s` at `pos` with its size in the shortest form
/// and not zero.
pub open spec fn canonical_array_row(s: Seq<u8>, pos: int) -> bool {
    &&& canonical_gamma(s, pos)
    &&& spec_parse_array_row(s, pos) is Ok
    &&& spec_parse_gamma(s, pos) matches Ok((size, _)) && size >= 1
}

/// A sparse array row stands in `s` at `pos` with its size and its index
/// in the shortest form, and a size that leaves room for the index.
pub open spec fn canonical_sparse_array_row(s: Seq<u8>, pos: int) -> bool {
    &&& canonical_gamma(s, pos)
    &&& spec_parse_sparse_array_row(s, pos) is Ok
    &&& match spec_parse_gamma(s, pos) {
        Err(_) => false,
        Ok((size, q)) => canonical_gamma(s, q) && match spec_parse_gamma(
            s,
            q,
        ) {
            Err(_) => false,
            Ok((index, _)) => size >= 1 + spec_gamma_length(index),
        },
    }
}

/// An array row in that form is what the writer gives for it.
pub proof fn lemma_canonical_array_row(s: Seq<u8>, pos: int, data: Seq<u8>, q: int)
    requires
        canonical_array_row(s, pos),
        spec_parse_array_row(s, pos) == Ok::<(Seq<u8>, int), Error>((data, q)),
    ensures
        0 <= pos <= q <= s.len(),
        s.subrange(pos, q) == array_row_bytes(data),
{
    let (size, p) = spec_parse_gamma(s, pos).unwrap();
    lemma_parsed_gamma(s, pos, size, p);
    lemma_subrange_join(s, pos, p, q);
}

/// A sparse array row in that form is what the writer gives for it.
pub proof fn lemma_canonical_sparse_array_row(s: Seq<u8>, pos: int, row: SparseArrayRowModel, q: int)
    requires
        canonical_sparse_array_row(s, pos),
        spec_parse_sparse_array_row(s, pos) == Ok::<(SparseArrayRowModel, int), Error>((row, q)),
    ensures
        0 <= pos <= q <= s.len(),
        s.subrange(pos, q) == sparse_array_row_bytes(row),
{
    let (size, p) = spec_parse_gamma(s, pos).unwrap();
    lemma_parsed_gamma(s, pos, size, p);
    let (index, r) = spec_parse_gamma(s, p).unwrap();
    lemma_parsed_gamma(s, p, index, r);
    lemma_subrange_join(s, p, r, q);
    lemma_subrange_join(s, pos, p, q);
    assert(sparse_array_row_bytes(row) =~= gamma_bytes(size) + (gamma_bytes(index) + row.data));
}

/// Where the wire form of an array row stands, an array row stands in the
/// form that the writer gives.
pub proof fn lemma_written_array_row(data: Seq<u8>, s: Seq<u8>, pos: int)
    requires
        array_row_writable(data),
        has_at(s, pos, array_row_bytes(data)),
    ensures
        canonical_array_row(s, pos),
{
    lemma_array_row_round_trip(data, s, pos);
    let size = (1 + data.len()) as u32;
    lemma_has_at_split(s, pos, gamma_bytes(size), data);
    lemma_written_gamma(s, pos, size);
}

/// Where the wire form of a sparse array row stands, a sparse array row
/// stands in the form that the writer gives.
pub proof fn lemma_written_sparse_array_row(row: SparseArrayRowModel, s: Seq<u8>, pos: int)
    requires
        sparse_array_row_writable(row),
        has_at(s, pos, sparse_array_row_bytes(row)),
    ensures
        canonical_sparse_array_row(s, pos),
{
    lemma_sparse_array_row_round_trip(row, s, pos);
    let size = sparse_array_row_size(row) as u32;
    let gi = gamma_bytes(row.index);
    assert(sparse_array_row_bytes(row) =~= gamma_bytes(size) + (gi + row.data));
    lemma_has_at_split(s, pos, gamma_bytes(size), gi + row.data);
    lemma_written_gamma(s, pos, size);
    lemma_has_at_split(s, pos + spec_gamma_length(size), gi, row.data);
    lemma_written_gamma(s, pos + spec_gamma_length(size), row.index);
}

} // verus!
