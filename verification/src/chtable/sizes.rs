use crate::chtable::data::{fields_model, lemma_struct_view, TableData, TableStruct};
use crate::chtable::value::{
    fields_len, fields_lens, fields_writable, list_len, rows_lens, rows_writable, value_len,
    value_writable, ValueModel,
};
use crate::gamma::{gamma_length, spec_gamma_length};
use crate::repeat::{lemma_total_take, total};
use crate::text::TableString;
use vstd::prelude::*;

verus! {

/// The sum `a + b` when it is at most `limit`.
fn bounded_sum(a: usize, b: usize, limit: usize) -> (r: Option<usize>)
    ensures
        match r {
            Some(n) => n == a + b && n <= limit,
            None => a + b > limit,
        },
{
    if a > limit || b > limit - a {
        None
    } else {
        Some(a + b)
    }
}

/// Number of bytes of the wire form of a list of `len` integers of `w`
/// bytes, when it is at most `limit`.
fn list_bounded_len(len: usize, w: usize, limit: usize) -> (r: Option<usize>)
    requires
        len <= u32::MAX,
        1 <= w <= 8,
    ensures
        match r {
            Some(n) => n == list_len(len as nat, w as int) && n <= limit,
            None => list_len(len as nat, w as int) > limit,
        },
{
    let g: u64 = gamma_length(len as u32) as u64;
    assert(len * w <= 0xFFFF_FFFF * 8) by (nonlinear_arith)
        requires
            len <= 0xFFFF_FFFF,
            w <= 8,
    ;
    assert(len * w >= 0) by (nonlinear_arith)
        requires
            len >= 0,
            w >= 0,
    ;
    let all: u64 = g + (len as u64) * (w as u64);
    if all > limit as u64 {
        None
    } else {
        Some(all as usize)
    }
}

/// Number of bytes of the wire form of the fields of one row, when it is
/// at most `limit`.
pub fn fields_bounded_len(fields: &Vec<(TableString, TableData)>, limit: usize) -> (r: Option<usize>)
    requires
        fields_writable(fields_model(fields@)),
    ensures
        match r {
            Some(n) => n == fields_len(fields_model(fields@)) && n <= limit,
            None => fields_len(fields_model(fields@)) > limit,
        },
    decreases fields,
{
    let ghost fm = fields_model(fields@);
    let ghost lens = fields_lens(fm);
    let mut n: usize = 0;
    let mut j: usize = 0;
    while j < fields.len()
        invariant
            j <= fields.len(),
            fm == fields_model(fields@),
            lens == fields_lens(fm),
            fields_writable(fm),
            n == total(lens.take(j as int)),
            n <= limit,
        decreases fields.len() - j,
    {
        proof {
            lemma_total_take(lens, j as int);
            assert(fm[j as int].1 == fields@[j as int].1@);
        }
        let x = match fields[j].1.bounded_len(limit) {
            Some(x) => x,
            None => {
                return None;
            },
        };
        n = match bounded_sum(n, x, limit) {
            Some(m) => m,
            None => {
                return None;
            },
        };
        j = j + 1;
    }
    proof {
        lemma_total_take(lens, j as int);
    }
    Some(n)
}

impl TableStruct {
    /// Number of bytes of the wire form, when it is at most `limit`.
    pub fn bounded_len(&self, limit: usize) -> (r: Option<usize>)
        requires
            value_writable(ValueModel::Rows(self@)),
        ensures
            match r {
                Some(n) => n == value_len(ValueModel::Rows(self@)) && n <= limit,
                None => value_len(ValueModel::Rows(self@)) > limit,
            },
        decreases self,
    {
        let ghost rows = self@;
        let ghost lens = rows_lens(rows);
        let g: usize = gamma_length(self.data.len() as u32) as usize;
        if g > limit {
            return None;
        }
        let mut n: usize = g;
        let mut i: usize = 0;
        while i < self.data.len()
            invariant
                i <= self.data.len(),
                rows == self@,
                lens == rows_lens(rows),
                rows_writable(rows),
                rows.len() <= u32::MAX,
                g == spec_gamma_length(rows.len() as u32),
                n == g + total(lens.take(i as int)),
                n <= limit,
            decreases self.data.len() - i,
        {
            proof {
                lemma_total_take(lens, i as int);
                assert(rows[i as int] == fields_model(self.data@[i as int]@));
            }
            let x = match fields_bounded_len(&self.data[i], limit) {
                Some(x) => x,
                None => {
                    return None;
                },
            };
            n = match bounded_sum(n, x, limit) {
                Some(m) => m,
                None => {
                    return None;
                },
            };
            i = i + 1;
        }
        proof {
            lemma_total_take(lens, i as int);
        }
        Some(n)
    }
}

impl TableData {
    /// Number of bytes of the wire form, when it is at most `limit`.
    pub fn bounded_len(&self, limit: usize) -> (r: Option<usize>)
        requires
            value_writable(self@),
        ensures
            match r {
                Some(n) => n == value_len(self@) && n <= limit,
                None => value_len(self@) > limit,
            },
        decreases self,
    {
        match self {
            TableData::Int8(_) => bounded_sum(1, 0, limit),
            TableData::UInt8(_) => bounded_sum(1, 0, limit),
            TableData::Int16(_) => bounded_sum(2, 0, limit),
            TableData::UInt16(_) => bounded_sum(2, 0, limit),
            TableData::Int32(_) => bounded_sum(4, 0, limit),
            TableData::UInt32(_) => bounded_sum(4, 0, limit),
            TableData::Int64(_) => bounded_sum(8, 0, limit),
            TableData::UInt64(_) => bounded_sum(8, 0, limit),
            TableData::StringId(_) => bounded_sum(2, 0, limit),
            TableData::Str(t) => list_bounded_len(t.len(), 1, limit),
            TableData::Struct(ts) => {
                proof {
                    lemma_struct_view(*ts);
                }
                ts.bounded_len(limit)
            },
            TableData::Int8List(l) => list_bounded_len(l.len(), 1, limit),
            TableData::UInt8List(l) => list_bounded_len(l.len(), 1, limit),
            TableData::Int16List(l) => list_bounded_len(l.len(), 2, limit),
            TableData::UInt16List(l) => list_bounded_len(l.len(), 2, limit),
            TableData::Int32List(l) => list_bounded_len(l.len(), 4, limit),
            TableData::UInt32List(l) => list_bounded_len(l.len(), 4, limit),
            TableData::Int64List(l) => list_bounded_len(l.len(), 8, limit),
            TableData::UInt64List(l) => list_bounded_len(l.len(), 8, limit),
            TableData::StringIdList(l) => list_bounded_len(l.len(), 2, limit),
        }
    }
}

} // verus!
