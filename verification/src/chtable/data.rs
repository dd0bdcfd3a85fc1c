use crate::chtable::property::{lemma_property_view, TableDataType, TableHeaderProperty};
use crate::chtable::schema::SleType;
use crate::chtable::value::{
    FieldModel, int_item, ints_encs, is_list_tag, is_scalar_tag, list_bytes, list_len,
    spec_parse_fields, spec_parse_list, spec_parse_rows, spec_parse_value, ValueModel,
};
use crate::error::{agrees, Error};
use crate::gamma::{gamma_length, parse_gamma, spec_parse_gamma, write_gamma};
use crate::repeat::{
    concat, lemma_concat_take, lemma_with_prefix_done, lemma_with_prefix_push, parse_n, with_prefix,
};
use crate::text::TableString;
use crate::wire::{read_int, WireInt};
use vstd::prelude::*;

verus! {

/// The elements of `s` as mathematical integers.
pub open spec fn ints_of<T: WireInt>(s: Seq<T>) -> Seq<int> {
    Seq::new(s.len(), |i: int| s[i].as_int())
}

/// Reads a list of integers from `data` at `pos`: the count as a gamma,
/// then that many integers.
pub fn read_list<T: WireInt>(data: &[u8], pos: usize) -> (res: Result<(Vec<T>, usize), Error>)
    ensures
        match spec_parse_list(data@, pos as int, T::spec_width(), T::spec_signed()) {
            Ok((xs, q)) => res matches Ok((v, p)) && ints_of(v@) == xs && p == q && pos < p
                <= data.len(),
            Err(e) => res matches Err(f) && e == f,
        },
{
    let ghost s = data@;
    let ghost item = int_item(T::spec_width(), T::spec_signed());
    let (n, q) = match parse_gamma(data, pos) {
        Ok(r) => r,
        Err(e) => {
            return Err(e);
        },
    };
    let mut acc: Vec<T> = Vec::new();
    let mut p: usize = q;
    let mut k: u32 = 0;
    proof {
        assert(ints_of(acc@) =~= Seq::<int>::empty());
        match parse_n(item, s, q as int, n as nat) {
            Ok((vs, r)) => {
                assert(Seq::<int>::empty() + vs =~= vs);
            },
            Err(_) => {},
        }
    }
    while k < n
        invariant
            s == data@,
            item == int_item(T::spec_width(), T::spec_signed()),
            k <= n,
            pos < q <= p <= data.len(),
            spec_parse_gamma(s, pos as int) == Ok::<(u32, int), Error>(
                (n, q as int),
            ),
            parse_n(item, s, q as int, n as nat) == with_prefix(
                ints_of(acc@),
                parse_n(item, s, p as int, (n - k) as nat),
            ),
        decreases n - k,
    {
        match read_int::<T>(data, p) {
            Err(e) => {
                return Err(e);
            },
            Ok((v, r)) => {
                proof {
                    v.lemma_wire_int();
                    lemma_with_prefix_push(
                        ints_of(acc@),
                        v.as_int(),
                        parse_n(item, s, r as int, (n - k - 1) as nat),
                    );
                    assert(ints_of(acc@.push(v)) =~= ints_of(acc@).push(v.as_int()));
                }
                acc.push(v);
                p = r;
                k = k + 1;
            },
        }
    }
    proof {
        lemma_with_prefix_done(ints_of(acc@), p as int);
    }
    Ok((acc, p))
}

/// Appends the wire form of a list of integers to `out`.
pub fn write_list<T: WireInt>(v: &Vec<T>, out: &mut Vec<u8>)
    requires
        v@.len() <= u32::MAX,
    ensures
        final(out)@ == old(out)@ + list_bytes(ints_of(v@), T::spec_width(), T::spec_signed()),
{
    let ghost enc = ints_encs(ints_of(v@), T::spec_width(), T::spec_signed());
    write_gamma(v.len() as u32, out);
    let ghost mid = out@;
    let mut i: usize = 0;
    proof {
        lemma_concat_take(enc, 0);
    }
    while i < v.len()
        invariant
            i <= v.len(),
            enc == ints_encs(ints_of(v@), T::spec_width(), T::spec_signed()),
            out@ == mid + concat(enc.take(i as int)),
        decreases v.len() - i,
    {
        proof {
            lemma_concat_take(enc, i as int);
        }
        v[i].write_to(out);
        i = i + 1;
        assert(out@ =~= mid + concat(enc.take(i as int)));
    }
    proof {
        lemma_concat_take(enc, i as int);
    }
    assert(out@ =~= old(out)@ + list_bytes(ints_of(v@), T::spec_width(), T::spec_signed()));
}

/// Number of bytes of the wire form of a list of integers.
pub fn list_byte_len<T: WireInt>(v: &Vec<T>) -> (n: usize)
    requires
        v@.len() <= u32::MAX,
        list_len(v@.len(), T::spec_width()) <= usize::MAX,
    ensures
        n == list_len(v@.len(), T::spec_width()),
{
    let w = T::width();
    let len = v.len();
    assert(len * w <= usize::MAX) by (nonlinear_arith)
        requires
            len * w <= list_len(len as nat, w as int),
            list_len(len as nat, w as int) <= usize::MAX,
    ;
    gamma_length(len as u32) as usize + len * w
}

/// A list of integers as it travels in a row: its count as a gamma, then
/// the integers.
#[derive(Debug, Clone, PartialEq, Eq)]
pub struct TableDataList<T: WireInt> {
    pub data: Vec<T>,
}

impl<T: WireInt> TableDataList<T> {
    /// Reads a list from `data` at `pos`.
    pub fn read(data: &[u8], pos: usize) -> (res: Result<(TableDataList<T>, usize), Error>)
        ensures
            match spec_parse_list(data@, pos as int, T::spec_width(), T::spec_signed()) {
                Ok((xs, q)) => res matches Ok((l, p)) && ints_of(l.data@) == xs && p == q && pos
                    < p <= data.len(),
                Err(e) => res matches Err(f) && e == f,
            },
    {
        match read_list::<T>(data, pos) {
            Ok((v, p)) => Ok((TableDataList { data: v }, p)),
            Err(e) => Err(e),
        }
    }

    /// Appends the wire form to `out`.
    pub fn write(&self, out: &mut Vec<u8>)
        requires
            self.data@.len() <= u32::MAX,
        ensures
            final(out)@ == old(out)@ + list_bytes(
                ints_of(self.data@),
                T::spec_width(),
                T::spec_signed(),
            ),
    {
        write_list(&self.data, out)
    }

    /// Number of bytes of the wire form.
    pub fn byte_len(&self) -> (n: usize)
        requires
            self.data@.len() <= u32::MAX,
            list_len(self.data@.len(), T::spec_width()) <= usize::MAX,
        ensures
            n == list_len(self.data@.len(), T::spec_width()),
    {
        list_byte_len(&self.data)
    }
}

/// A typed value of a row.
#[derive(Debug, PartialEq, Eq)]
pub enum TableData {
    Int8(i8),
    UInt8(u8),
    Int16(i16),
    UInt16(u16),
    Int32(i32),
    UInt32(u32),
    Int64(i64),
    UInt64(u64),
    StringId(u16),
    Str(TableString),
    Struct(TableStruct),
    Int8List(Vec<i8>),
    UInt8List(Vec<u8>),
    Int16List(Vec<i16>),
    UInt16List(Vec<u16>),
    Int32List(Vec<i32>),
    UInt32List(Vec<u32>),
    Int64List(Vec<i64>),
    UInt64List(Vec<u64>),
    StringIdList(Vec<u16>),
}

/// The rows of a nested struct: each row is its fields, key and value, in
/// the order of the schema.
#[derive(Debug, PartialEq, Eq)]
pub struct TableStruct {
    pub data: Vec<Vec<(TableString, TableData)>>,
}

/// What a `TableData` stands for.
pub open spec fn value_model(v: TableData) -> ValueModel
    decreases v,
{
    match v {
        TableData::Int8(x) => ValueModel::Int(SleType::Int8, x as int),
        TableData::UInt8(x) => ValueModel::Int(SleType::UInt8, x as int),
        TableData::Int16(x) => ValueModel::Int(SleType::Int16, x as int),
        TableData::UInt16(x) => ValueModel::Int(SleType::UInt16, x as int),
        TableData::Int32(x) => ValueModel::Int(SleType::Int32, x as int),
        TableData::UInt32(x) => ValueModel::Int(SleType::UInt32, x as int),
        TableData::Int64(x) => ValueModel::Int(SleType::Int64, x as int),
        TableData::UInt64(x) => ValueModel::Int(SleType::UInt64, x as int),
        TableData::StringId(x) => ValueModel::Int(SleType::StringId, x as int),
        TableData::Str(t) => ValueModel::Str(t@),
        TableData::Int8List(l) => ValueModel::List(SleType::Int8List, ints_of(l@)),
        TableData::UInt8List(l) => ValueModel::List(SleType::UInt8List, ints_of(l@)),
        TableData::Int16List(l) => ValueModel::List(SleType::Int16List, ints_of(l@)),
        TableData::UInt16List(l) => ValueModel::List(SleType::UInt16List, ints_of(l@)),
        TableData::Int32List(l) => ValueModel::List(SleType::Int32List, ints_of(l@)),
        TableData::UInt32List(l) => ValueModel::List(SleType::UInt32List, ints_of(l@)),
        TableData::Int64List(l) => ValueModel::List(SleType::Int64List, ints_of(l@)),
        TableData::UInt64List(l) => ValueModel::List(SleType::UInt64List, ints_of(l@)),
        TableData::StringIdList(l) => ValueModel::List(SleType::StringIdList, ints_of(l@)),
        TableData::Struct(ts) => ValueModel::Rows(
            Seq::new(
                ts.data@.len(),
                |i: int|
                    if 0 <= i < ts.data@.len() {
                        Seq::new(
                            ts.data@[i]@.len(),
                            |j: int|
                                if 0 <= j < ts.data@[i]@.len() {
                                    (ts.data@[i]@[j].0@, value_model(ts.data@[i]@[j].1))
                                } else {
                                    arbitrary()
                                },
                        )
                    } else {
                        arbitrary()
                    },
            ),
        ),
    }
}

impl View for TableData {
    type V = ValueModel;

    open spec fn view(&self) -> ValueModel {
        value_model(*self)
    }
}

/// What the fields of a row stand for.
pub open spec fn fields_model(fields: Seq<(TableString, TableData)>) -> Seq<FieldModel> {
    Seq::new(fields.len(), |j: int| (fields[j].0@, fields[j].1@))
}

/// What the rows of a nested struct stand for.
pub open spec fn rows_model(rows: Seq<Vec<(TableString, TableData)>>) -> Seq<Seq<FieldModel>> {
    Seq::new(rows.len(), |i: int| fields_model(rows[i]@))
}

impl View for TableStruct {
    type V = Seq<Seq<FieldModel>>;

    open spec fn view(&self) -> Seq<Seq<FieldModel>> {
        rows_model(self.data@)
    }
}

/// The view of a nested struct is made of the views of its rows.
pub proof fn lemma_struct_view(ts: TableStruct)
    ensures
        TableData::Struct(ts)@ == ValueModel::Rows(ts@),
{
    let a = TableData::Struct(ts)@->Rows_0;
    let b = rows_model(ts.data@);
    assert(a.len() == b.len());
    assert forall|i: int| 0 <= i < a.len() implies a[i] == b[i] by {
        assert(a[i] =~= b[i]);
    }
    assert(a =~= b);
}

/// Pushing a field pushes what it stands for.
pub proof fn lemma_fields_model_push(fields: Seq<(TableString, TableData)>, f: (TableString, TableData))
    ensures
        fields_model(fields.push(f)) == fields_model(fields).push((f.0@, f.1@)),
{
    assert(fields_model(fields.push(f)) =~= fields_model(fields).push((f.0@, f.1@)));
}

/// No fields stand for nothing.
pub proof fn lemma_fields_model_empty(fields: Seq<(TableString, TableData)>)
    requires
        fields.len() == 0,
    ensures
        fields_model(fields) == Seq::<FieldModel>::empty(),
{
    assert(fields_model(fields) =~= Seq::<FieldModel>::empty());
}

/// Pushing a row pushes what it stands for.
pub proof fn lemma_rows_model_push(
    rows: Seq<Vec<(TableString, TableData)>>,
    row: Vec<(TableString, TableData)>,
)
    ensures
        rows_model(rows.push(row)) == rows_model(rows).push(fields_model(row@)),
{
    assert(rows_model(rows.push(row)) =~= rows_model(rows).push(fields_model(row@)));
}

/// No rows stand for nothing.
pub proof fn lemma_rows_model_empty(rows: Seq<Vec<(TableString, TableData)>>)
    requires
        rows.len() == 0,
    ensures
        rows_model(rows) == Seq::<Seq<FieldModel>>::empty(),
{
    assert(rows_model(rows) =~= Seq::<Seq<FieldModel>>::empty());
}

/// Reads the fields of one row from `data` at `pos`, one value for each
/// property of `schema`.
pub fn read_fields(data: &[u8], pos: usize, schema: &Vec<TableHeaderProperty>) -> (res: Result<
    (Vec<(TableString, TableData)>, usize),
    Error,
>)
    ensures
        match spec_parse_fields(data@, pos as int, crate::repeat::views(schema@), 0) {
            Ok((fs, q)) => res matches Ok((v, p)) && fields_model(v@) == fs && p == q && pos <= p
                && (pos <= data.len() ==> p <= data.len()),
            Err(e) => res matches Err(f) && e == f,
        },
    decreases schema, 0nat,
{
    let ghost s = data@;
    let ghost tree = crate::repeat::views(schema@);
    let mut acc: Vec<(TableString, TableData)> = Vec::new();
    let mut p: usize = pos;
    let mut i: usize = 0;
    proof {
        lemma_fields_model_empty(acc@);
        match spec_parse_fields(s, pos as int, tree, 0) {
            Ok((vs, r)) => {
                assert(Seq::<FieldModel>::empty() + vs =~= vs);
            },
            Err(_) => {},
        }
    }
    while i < schema.len()
        invariant
            s == data@,
            tree == crate::repeat::views(schema@),
            i <= schema.len(),
            pos <= p,
            pos <= data.len() ==> p <= data.len(),
            spec_parse_fields(s, pos as int, tree, 0) == with_prefix(
                fields_model(acc@),
                spec_parse_fields(s, p as int, tree, i as int),
            ),
        decreases schema.len() - i,
    {
        assert(tree[i as int] == schema@[i as int]@);
        match TableData::read(data, p, &schema[i]) {
            Err(e) => {
                return Err(e);
            },
            Ok((v, r)) => {
                let key = schema[i].key.duplicate();
                proof {
                    lemma_property_view(schema@[i as int]);
                    lemma_with_prefix_push(
                        fields_model(acc@),
                        (key@, v@),
                        spec_parse_fields(s, r as int, tree, i + 1),
                    );
                    lemma_fields_model_push(acc@, (key, v));
                }
                acc.push((key, v));
                p = r;
                i = i + 1;
            },
        }
    }
    proof {
        lemma_with_prefix_done(fields_model(acc@), p as int);
    }
    Ok((acc, p))
}

impl TableStruct {
    /// Reads the rows of a nested struct from `data` at `pos`: the count as
    /// a gamma, then that many rows, each against `schema`.
    pub fn read(data: &[u8], pos: usize, schema: &Vec<TableHeaderProperty>) -> (res: Result<
        (TableStruct, usize),
        Error,
    >)
        ensures
            match spec_parse_gamma(data@, pos as int) {
                Err(e) => res matches Err(f) && e == f,
                Ok((n, q)) => match spec_parse_rows(
                    data@,
                    q,
                    crate::repeat::views(schema@),
                    n as nat,
                ) {
                    Err(e) => res matches Err(f) && e == f,
                    Ok((rows, r)) => res matches Ok((ts, p)) && ts@ == rows && p == r && pos < p
                        <= data.len(),
                },
            },
        decreases schema, 1nat,
    {
        let ghost s = data@;
        let ghost tree = crate::repeat::views(schema@);
        let (n, q) = match parse_gamma(data, pos) {
            Ok(r) => r,
            Err(e) => {
                return Err(e);
            },
        };
        let mut rows: Vec<Vec<(TableString, TableData)>> = Vec::new();
        let mut p: usize = q;
        let mut k: u32 = 0;
        proof {
            lemma_rows_model_empty(rows@);
            match spec_parse_rows(s, q as int, tree, n as nat) {
                Ok((vs, r)) => {
                    assert(Seq::<Seq<FieldModel>>::empty() + vs =~= vs);
                },
                Err(_) => {},
            }
        }
        while k < n
            invariant
                s == data@,
                tree == crate::repeat::views(schema@),
                k <= n,
                pos < q <= p <= data.len(),
                spec_parse_gamma(s, pos as int) == Ok::<(u32, int), Error>(
                    (n, q as int),
                ),
                spec_parse_rows(s, q as int, tree, n as nat) == with_prefix(
                    rows_model(rows@),
                    spec_parse_rows(s, p as int, tree, (n - k) as nat),
                ),
            decreases n - k,
        {
            match read_fields(data, p, schema) {
                Err(e) => {
                    return Err(e);
                },
                Ok((row, r)) => {
                    proof {
                        lemma_with_prefix_push(
                            rows_model(rows@),
                            fields_model(row@),
                            spec_parse_rows(s, r as int, tree, (n - k - 1) as nat),
                        );
                        lemma_rows_model_push(rows@, row);
                    }
                    rows.push(row);
                    p = r;
                    k = k + 1;
                },
            }
        }
        proof {
            lemma_with_prefix_done(rows_model(rows@), p as int);
        }
        Ok((TableStruct { data: rows }, p))
    }
}

/// Reads a single integer of the type of `prop` from `data` at `pos`.
fn read_scalar(data: &[u8], pos: usize, prop: &TableHeaderProperty) -> (res: Result<
    (TableData, usize),
    Error,
>)
    requires
        is_scalar_tag(prop@.tag),
    ensures
        agrees(res, spec_parse_value(data@, pos as int, prop@)),
        res matches Ok((_, p)) ==> pos < p <= data.len(),
{
    proof {
        lemma_property_view(*prop);
    }
    match &prop.data_type {
        TableDataType::Int8 => match read_int::<i8>(data, pos) {
            Ok((v, p)) => Ok((TableData::Int8(v), p)),
            Err(e) => Err(e),
        },
        TableDataType::UInt8 => match read_int::<u8>(data, pos) {
            Ok((v, p)) => Ok((TableData::UInt8(v), p)),
            Err(e) => Err(e),
        },
        TableDataType::Int16 => match read_int::<i16>(data, pos) {
            Ok((v, p)) => Ok((TableData::Int16(v), p)),
            Err(e) => Err(e),
        },
        TableDataType::UInt16 => match read_int::<u16>(data, pos) {
            Ok((v, p)) => Ok((TableData::UInt16(v), p)),
            Err(e) => Err(e),
        },
        TableDataType::Int32 => match read_int::<i32>(data, pos) {
            Ok((v, p)) => Ok((TableData::Int32(v), p)),
            Err(e) => Err(e),
        },
        TableDataType::UInt32 => match read_int::<u32>(data, pos) {
            Ok((v, p)) => Ok((TableData::UInt32(v), p)),
            Err(e) => Err(e),
        },
        TableDataType::Int64 => match read_int::<i64>(data, pos) {
            Ok((v, p)) => Ok((TableData::Int64(v), p)),
            Err(e) => Err(e),
        },
        TableDataType::UInt64 => match read_int::<u64>(data, pos) {
            Ok((v, p)) => Ok((TableData::UInt64(v), p)),
            Err(e) => Err(e),
        },
        _ => match read_int::<u16>(data, pos) {
            Ok((v, p)) => Ok((TableData::StringId(v), p)),
            Err(e) => Err(e),
        },
    }
}

/// Reads a list of integers of the type of `prop` from `data` at `pos`.
fn read_list_value(data: &[u8], pos: usize, prop: &TableHeaderProperty) -> (res: Result<
    (TableData, usize),
    Error,
>)
    requires
        is_list_tag(prop@.tag),
    ensures
        agrees(res, spec_parse_value(data@, pos as int, prop@)),
        res matches Ok((_, p)) ==> pos < p <= data.len(),
{
    proof {
        lemma_property_view(*prop);
    }
    match &prop.data_type {
        TableDataType::Int8List => match read_list::<i8>(data, pos) {
            Ok((v, p)) => Ok((TableData::Int8List(v), p)),
            Err(e) => Err(e),
        },
        TableDataType::UInt8List => match read_list::<u8>(data, pos) {
            Ok((v, p)) => Ok((TableData::UInt8List(v), p)),
            Err(e) => Err(e),
        },
        TableDataType::Int16List => match read_list::<i16>(data, pos) {
            Ok((v, p)) => Ok((TableData::Int16List(v), p)),
            Err(e) => Err(e),
        },
        TableDataType::UInt16List => match read_list::<u16>(data, pos) {
            Ok((v, p)) => Ok((TableData::UInt16List(v), p)),
            Err(e) => Err(e),
        },
        TableDataType::Int32List => match read_list::<i32>(data, pos) {
            Ok((v, p)) => Ok((TableData::Int32List(v), p)),
            Err(e) => Err(e),
        },
        TableDataType::UInt32List => match read_list::<u32>(data, pos) {
            Ok((v, p)) => Ok((TableData::UInt32List(v), p)),
            Err(e) => Err(e),
        },
        TableDataType::Int64List => match read_list::<i64>(data, pos) {
            Ok((v, p)) => Ok((TableData::Int64List(v), p)),
            Err(e) => Err(e),
        },
        TableDataType::UInt64List => match read_list::<u64>(data, pos) {
            Ok((v, p)) => Ok((TableData::UInt64List(v), p)),
            Err(e) => Err(e),
        },
        _ => match read_list::<u16>(data, pos) {
            Ok((v, p)) => Ok((TableData::StringIdList(v), p)),
            Err(e) => Err(e),
        },
    }
}

impl TableData {
    /// Reads a value of the type of `prop` from `data` at `pos`.
    pub fn read(data: &[u8], pos: usize, prop: &TableHeaderProperty) -> (res: Result<
        (TableData, usize),
        Error,
    >)
        ensures
            agrees(res, spec_parse_value(data@, pos as int, prop@)),
            res matches Ok((_, p)) ==> pos < p <= data.len(),
        decreases prop, 0nat,
    {
        proof {
            lemma_property_view(*prop);
        }
        match &prop.data_type {
            TableDataType::Str => match TableString::read(data, pos) {
                Ok((t, p)) => Ok((TableData::Str(t), p)),
                Err(e) => Err(e),
            },
            TableDataType::Struct(schema) => match TableStruct::read(data, pos, schema) {
                Ok((ts, p)) => {
                    proof {
                        lemma_struct_view(ts);
                    }
                    Ok((TableData::Struct(ts), p))
                },
                Err(e) => Err(e),
            },
            TableDataType::Int8
            | TableDataType::UInt8
            | TableDataType::Int16
            | TableDataType::UInt16
            | TableDataType::Int32
            | TableDataType::UInt32
            | TableDataType::Int64
            | TableDataType::UInt64
            | TableDataType::StringId => read_scalar(data, pos, prop),
            _ => read_list_value(data, pos, prop),
        }
    }
}

} // verus!
