use crate::chtable::data::{
    fields_model, lemma_struct_view, list_byte_len, TableData, TableStruct, write_list,
};
use crate::chtable::property::{lemma_property_view, TableDataType, TableHeaderProperty};
use crate::chtable::schema::SleType;
use crate::chtable::value::{
    fields_bytes, fields_encs, fields_fit, fields_len, fields_lens, fields_writable, is_list_tag,
    is_scalar_tag, rows_encs, rows_fit, rows_lens, value_bytes, value_fits, value_len,
    value_writable, ValueModel,
};
use crate::gamma::{gamma_length, write_gamma};
use crate::repeat::{concat, lemma_concat_take, lemma_total_take, total, views};
use crate::text::TableString;
use crate::wire::WireInt;
use vstd::prelude::*;

verus! {

/// The tag of the type of a value.
pub open spec fn value_tag(v: ValueModel) -> SleType {
    match v {
        ValueModel::Int(t, _) => t,
        ValueModel::List(t, _) => t,
        ValueModel::Str(_) => SleType::Str,
        ValueModel::Rows(_) => SleType::Struct,
    }
}

/// Appends the wire form of the fields of one row to `out`: the values, one
/// after the other.
pub fn write_fields(fields: &Vec<(TableString, TableData)>, out: &mut Vec<u8>)
    requires
        fields_writable(fields_model(fields@)),
    ensures
        final(out)@ == old(out)@ + fields_bytes(fields_model(fields@)),
    decreases fields,
{
    let ghost fm = fields_model(fields@);
    let ghost enc = fields_encs(fm);
    let mut j: usize = 0;
    proof {
        lemma_concat_take(enc, 0);
    }
    while j < fields.len()
        invariant
            j <= fields.len(),
            fm == fields_model(fields@),
            enc == fields_encs(fm),
            fields_writable(fm),
            out@ == old(out)@ + concat(enc.take(j as int)),
        decreases fields.len() - j,
    {
        proof {
            lemma_concat_take(enc, j as int);
            assert(fm[j as int].1 == fields@[j as int].1@);
        }
        fields[j].1.write(out);
        j = j + 1;
        assert(out@ =~= old(out)@ + concat(enc.take(j as int)));
    }
    proof {
        lemma_concat_take(enc, j as int);
    }
}

/// Number of bytes of the wire form of the fields of one row.
pub fn fields_byte_len(fields: &Vec<(TableString, TableData)>) -> (n: usize)
    requires
        fields_writable(fields_model(fields@)),
        fields_len(fields_model(fields@)) <= usize::MAX,
    ensures
        n == fields_len(fields_model(fields@)),
    decreases fields,
{
    let ghost fm = fields_model(fields@);
    let ghost lens = fields_lens(fm);
    let mut n: usize = 0;
    let mut j: usize = 0;
    while j < fields.len()
        invariant
            j <= fields.len(),
            fm == fields_model(fields@),
            lens == fields_lens(fm),
            fields_writable(fm),
            total(lens) <= usize::MAX,
            n == total(lens.take(j as int)),
        decreases fields.len() - j,
    {
        proof {
            lemma_total_take(lens, j as int);
            assert(fm[j as int].1 == fields@[j as int].1@);
        }
        n = n + fields[j].1.byte_len();
        j = j + 1;
    }
    proof {
        lemma_total_take(lens, j as int);
    }
    n
}

/// Whether every count in the fields of a row fits 32 bits, at every depth.
pub fn fields_are_writable(fields: &Vec<(TableString, TableData)>) -> (b: bool)
    ensures
        b == fields_writable(fields_model(fields@)),
    decreases fields,
{
    let ghost fm = fields_model(fields@);
    let mut j: usize = 0;
    while j < fields.len()
        invariant
            j <= fields.len(),
            fm == fields_model(fields@),
            forall|k: int| 0 <= k < j ==> value_writable((#[trigger] fm[k]).1),
        decreases fields.len() - j,
    {
        assert(fm[j as int].1 == fields@[j as int].1@);
        if !fields[j].1.is_writable() {
            return false;
        }
        j = j + 1;
    }
    true
}

/// Whether the fields of a row are those that `schema` names: as many, with
/// the same keys in the same order, each value of its property's type.
pub fn fields_fit_schema(fields: &Vec<(TableString, TableData)>, schema: &Vec<TableHeaderProperty>) -> (b:
    bool)
    ensures
        b == fields_fit(fields_model(fields@), views(schema@)),
    decreases schema, 0nat,
{
    let ghost fm = fields_model(fields@);
    let ghost tree = views(schema@);
    if fields.len() != schema.len() {
        return false;
    }
    let mut j: usize = 0;
    while j < schema.len()
        invariant
            j <= schema.len(),
            fields.len() == schema.len(),
            fm == fields_model(fields@),
            tree == views(schema@),
            forall|k: int|
                0 <= k < j ==> (#[trigger] fm[k]).0 == tree[k].key && value_fits(fm[k].1, tree[k]),
        decreases schema.len() - j,
    {
        proof {
            lemma_property_view(schema@[j as int]);
            assert(fm[j as int] == (fields@[j as int].0@, fields@[j as int].1@));
            assert(tree[j as int] == schema@[j as int]@);
        }
        if !fields[j].0.same_as(&schema[j].key) {
            return false;
        }
        if !fields[j].1.fits(&schema[j]) {
            return false;
        }
        j = j + 1;
    }
    true
}

impl TableStruct {
    /// Appends the wire form to `out`: the number of rows as a gamma, then
    /// the rows.
    pub fn write(&self, out: &mut Vec<u8>)
        requires
            value_writable(ValueModel::Rows(self@)),
        ensures
            final(out)@ == old(out)@ + value_bytes(ValueModel::Rows(self@)),
        decreases self,
    {
        let ghost rows = self@;
        let ghost enc = rows_encs(rows);
        write_gamma(self.data.len() as u32, out);
        let ghost mid = out@;
        let mut i: usize = 0;
        proof {
            lemma_concat_take(enc, 0);
        }
        while i < self.data.len()
            invariant
                i <= self.data.len(),
                rows == self@,
                enc == rows_encs(rows),
                value_writable(ValueModel::Rows(rows)),
                out@ == mid + concat(enc.take(i as int)),
            decreases self.data.len() - i,
        {
            proof {
                lemma_concat_take(enc, i as int);
                assert(rows[i as int] == fields_model(self.data@[i as int]@));
            }
            write_fields(&self.data[i], out);
            i = i + 1;
            assert(out@ =~= mid + concat(enc.take(i as int)));
        }
        proof {
            lemma_concat_take(enc, i as int);
        }
        assert(out@ =~= old(out)@ + value_bytes(ValueModel::Rows(self@)));
    }

    /// Number of bytes of the wire form.
    pub fn byte_len(&self) -> (n: usize)
        requires
            value_writable(ValueModel::Rows(self@)),
            value_len(ValueModel::Rows(self@)) <= usize::MAX,
        ensures
            n == value_len(ValueModel::Rows(self@)),
        decreases self,
    {
        let ghost rows = self@;
        let ghost lens = rows_lens(rows);
        let mut n: usize = gamma_length(self.data.len() as u32) as usize;
        let ghost g = n;
        let mut i: usize = 0;
        while i < self.data.len()
            invariant
                i <= self.data.len(),
                rows == self@,
                lens == rows_lens(rows),
                value_writable(ValueModel::Rows(rows)),
                g + total(lens) <= usize::MAX,
                n == g + total(lens.take(i as int)),
            decreases self.data.len() - i,
        {
            proof {
                lemma_total_take(lens, i as int);
                assert(rows[i as int] == fields_model(self.data@[i as int]@));
            }
            n = n + fields_byte_len(&self.data[i]);
            i = i + 1;
        }
        proof {
            lemma_total_take(lens, i as int);
        }
        n
    }

    /// Whether every count fits 32 bits, at every depth.
    pub fn is_writable(&self) -> (b: bool)
        ensures
            b == value_writable(ValueModel::Rows(self@)),
        decreases self,
    {
        let ghost rows = self@;
        if self.data.len() > 0xFFFF_FFFF {
            return false;
        }
        let mut i: usize = 0;
        while i < self.data.len()
            invariant
                i <= self.data.len(),
                rows == self@,
                forall|k: int| 0 <= k < i ==> fields_writable(#[trigger] rows[k]),
            decreases self.data.len() - i,
        {
            assert(rows[i as int] == fields_model(self.data@[i as int]@));
            if !fields_are_writable(&self.data[i]) {
                return false;
            }
            i = i + 1;
        }
        true
    }

    /// Whether every row has the fields that `schema` names.
    pub fn fits(&self, schema: &Vec<TableHeaderProperty>) -> (b: bool)
        ensures
            b == rows_fit(self@, views(schema@)),
        decreases schema, 1nat,
    {
        let ghost rows = self@;
        let mut i: usize = 0;
        while i < self.data.len()
            invariant
                i <= self.data.len(),
                rows == self@,
                forall|k: int| 0 <= k < i ==> fields_fit(#[trigger] rows[k], views(schema@)),
            decreases self.data.len() - i,
        {
            assert(rows[i as int] == fields_model(self.data@[i as int]@));
            if !fields_fit_schema(&self.data[i], schema) {
                return false;
            }
            i = i + 1;
        }
        true
    }
}

impl TableData {
    /// The tag of the value's type.
    pub fn tag(&self) -> (t: SleType)
        ensures
            t == value_tag(self@),
            self@ is Int ==> is_scalar_tag(t),
            self@ is List ==> is_list_tag(t),
    {
        match self {
            TableData::Int8(_) => SleType::Int8,
            TableData::UInt8(_) => SleType::UInt8,
            TableData::Int16(_) => SleType::Int16,
            TableData::UInt16(_) => SleType::UInt16,
            TableData::Int32(_) => SleType::Int32,
            TableData::UInt32(_) => SleType::UInt32,
            TableData::Int64(_) => SleType::Int64,
            TableData::UInt64(_) => SleType::UInt64,
            TableData::StringId(_) => SleType::StringId,
            TableData::Str(_) => SleType::Str,
            TableData::Struct(_) => SleType::Struct,
            TableData::Int8List(_) => SleType::Int8List,
            TableData::UInt8List(_) => SleType::UInt8List,
            TableData::Int16List(_) => SleType::Int16List,
            TableData::UInt16List(_) => SleType::UInt16List,
            TableData::Int32List(_) => SleType::Int32List,
            TableData::UInt32List(_) => SleType::UInt32List,
            TableData::Int64List(_) => SleType::Int64List,
            TableData::UInt64List(_) => SleType::UInt64List,
            TableData::StringIdList(_) => SleType::StringIdList,
        }
    }

    /// Appends the wire form to `out`.
    pub fn write(&self, out: &mut Vec<u8>)
        requires
            value_writable(self@),
        ensures
            final(out)@ == old(out)@ + value_bytes(self@),
        decreases self,
    {
        match self {
            TableData::Int8(x) => x.write_to(out),
            TableData::UInt8(x) => x.write_to(out),
            TableData::Int16(x) => x.write_to(out),
            TableData::UInt16(x) => x.write_to(out),
            TableData::Int32(x) => x.write_to(out),
            TableData::UInt32(x) => x.write_to(out),
            TableData::Int64(x) => x.write_to(out),
            TableData::UInt64(x) => x.write_to(out),
            TableData::StringId(x) => x.write_to(out),
            TableData::Str(t) => t.write(out),
            TableData::Struct(ts) => {
                proof {
                    lemma_struct_view(*ts);
                }
                ts.write(out)
            },
            TableData::Int8List(l) => write_list(l, out),
            TableData::UInt8List(l) => write_list(l, out),
            TableData::Int16List(l) => write_list(l, out),
            TableData::UInt16List(l) => write_list(l, out),
            TableData::Int32List(l) => write_list(l, out),
            TableData::UInt32List(l) => write_list(l, out),
            TableData::Int64List(l) => write_list(l, out),
            TableData::UInt64List(l) => write_list(l, out),
            TableData::StringIdList(l) => write_list(l, out),
        }
    }

    /// Number of bytes of the wire form.
    pub fn byte_len(&self) -> (n: usize)
        requires
            value_writable(self@),
            value_len(self@) <= usize::MAX,
        ensures
            n == value_len(self@),
        decreases self,
    {
        match self {
            TableData::Int8(_) => 1,
            TableData::UInt8(_) => 1,
            TableData::Int16(_) => 2,
            TableData::UInt16(_) => 2,
            TableData::Int32(_) => 4,
            TableData::UInt32(_) => 4,
            TableData::Int64(_) => 8,
            TableData::UInt64(_) => 8,
            TableData::StringId(_) => 2,
            TableData::Str(t) => t.byte_len(),
            TableData::Struct(ts) => {
                proof {
                    lemma_struct_view(*ts);
                }
                ts.byte_len()
            },
            TableData::Int8List(l) => list_byte_len(l),
            TableData::UInt8List(l) => list_byte_len(l),
            TableData::Int16List(l) => list_byte_len(l),
            TableData::UInt16List(l) => list_byte_len(l),
            TableData::Int32List(l) => list_byte_len(l),
            TableData::UInt32List(l) => list_byte_len(l),
            TableData::Int64List(l) => list_byte_len(l),
            TableData::UInt64List(l) => list_byte_len(l),
            TableData::StringIdList(l) => list_byte_len(l),
        }
    }

    /// Whether every count in the value fits 32 bits, at every depth.
    pub fn is_writable(&self) -> (b: bool)
        ensures
            b == value_writable(self@),
        decreases self,
    {
        match self {
            TableData::Str(t) => t.len() <= 0xFFFF_FFFF,
            TableData::Struct(ts) => {
                proof {
                    lemma_struct_view(*ts);
                }
                ts.is_writable()
            },
            TableData::Int8List(l) => l.len() <= 0xFFFF_FFFF,
            TableData::UInt8List(l) => l.len() <= 0xFFFF_FFFF,
            TableData::Int16List(l) => l.len() <= 0xFFFF_FFFF,
            TableData::UInt16List(l) => l.len() <= 0xFFFF_FFFF,
            TableData::Int32List(l) => l.len() <= 0xFFFF_FFFF,
            TableData::UInt32List(l) => l.len() <= 0xFFFF_FFFF,
            TableData::Int64List(l) => l.len() <= 0xFFFF_FFFF,
            TableData::UInt64List(l) => l.len() <= 0xFFFF_FFFF,
            TableData::StringIdList(l) => l.len() <= 0xFFFF_FFFF,
            _ => true,
        }
    }

    /// Whether the value is of the type of `prop`.
    pub fn fits(&self, prop: &TableHeaderProperty) -> (b: bool)
        ensures
            b == value_fits(self@, prop@),
        decreases prop, 0nat,
    {
        proof {
            lemma_property_view(*prop);
        }
        if self.tag() != prop.data_type.tag() {
            return false;
        }
        match self {
            TableData::Struct(ts) => {
                proof {
                    lemma_struct_view(*ts);
                }
                match &prop.data_type {
                    TableDataType::Struct(schema) => ts.fits(schema),
                    _ => false,
                }
            },
            _ => true,
        }
    }
}

} // verus!
