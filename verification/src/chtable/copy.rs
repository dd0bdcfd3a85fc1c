use crate::chtable::data::{
    fields_model, lemma_fields_model_empty, lemma_fields_model_push, lemma_rows_model_empty,
    lemma_rows_model_push, lemma_struct_view, rows_model, TableData, TableStruct,
};
use crate::chtable::property::{lemma_property_view, TableDataType, TableHeaderProperty};
use crate::repeat::{lemma_views_empty, lemma_views_push, views};
use crate::text::TableString;
use vstd::prelude::*;

verus! {

/// A copy of a list of plain values.
pub fn copy_list<T: Copy>(v: &Vec<T>) -> (r: Vec<T>)
    ensures
        r@ == v@,
{
    let mut r: Vec<T> = Vec::new();
    let mut i: usize = 0;
    while i < v.len()
        invariant
            i <= v.len(),
            r@ == v@.take(i as int),
        decreases v.len() - i,
    {
        r.push(v[i]);
        i = i + 1;
        assert(r@ =~= v@.take(i as int));
    }
    assert(v@.take(v@.len() as int) =~= v@);
    r
}

/// A copy of a schema, at every depth.
pub fn copy_schema(props: &Vec<TableHeaderProperty>) -> (r: Vec<TableHeaderProperty>)
    ensures
        views(r@) == views(props@),
    decreases props, 1nat,
{
    let mut r: Vec<TableHeaderProperty> = Vec::new();
    let mut i: usize = 0;
    proof {
        lemma_views_empty(r@);
    }
    while i < props.len()
        invariant
            i <= props.len(),
            views(r@) == views(props@).take(i as int),
        decreases props.len() - i,
    {
        let p = props[i].duplicate();
        proof {
            lemma_views_push(r@, p);
        }
        r.push(p);
        i = i + 1;
        assert(views(r@) =~= views(props@).take(i as int));
    }
    assert(views(props@).take(props@.len() as int) =~= views(props@));
    r
}

impl TableHeaderProperty {
    /// A copy, at every depth.
    pub fn duplicate(&self) -> (r: TableHeaderProperty)
        ensures
            r@ == self@,
        decreases self, 0nat,
    {
        let data_type = match &self.data_type {
            TableDataType::Struct(ps) => TableDataType::Struct(copy_schema(ps)),
            other => TableDataType::of_tag(other.tag(), Vec::new()),
        };
        let r = TableHeaderProperty { key: self.key.duplicate(), data_type };
        proof {
            lemma_property_view(*self);
            lemma_property_view(r);
        }
        r
    }
}

/// A copy of the fields of a row, at every depth.
pub fn copy_fields(fields: &Vec<(TableString, TableData)>) -> (r: Vec<(TableString, TableData)>)
    ensures
        fields_model(r@) == fields_model(fields@),
    decreases fields,
{
    let mut r: Vec<(TableString, TableData)> = Vec::new();
    let mut j: usize = 0;
    proof {
        lemma_fields_model_empty(r@);
    }
    while j < fields.len()
        invariant
            j <= fields.len(),
            fields_model(r@) == fields_model(fields@).take(j as int),
        decreases fields.len() - j,
    {
        let f = (fields[j].0.duplicate(), fields[j].1.duplicate());
        proof {
            lemma_fields_model_push(r@, f);
        }
        r.push(f);
        j = j + 1;
        assert(fields_model(r@) =~= fields_model(fields@).take(j as int));
    }
    assert(fields_model(fields@).take(fields@.len() as int) =~= fields_model(fields@));
    r
}

impl TableStruct {
    /// A copy, at every depth.
    pub fn duplicate(&self) -> (r: TableStruct)
        ensures
            r@ == self@,
        decreases self,
    {
        let mut rows: Vec<Vec<(TableString, TableData)>> = Vec::new();
        let mut i: usize = 0;
        proof {
            lemma_rows_model_empty(rows@);
        }
        while i < self.data.len()
            invariant
                i <= self.data.len(),
                rows_model(rows@) == rows_model(self.data@).take(i as int),
            decreases self.data.len() - i,
        {
            let row = copy_fields(&self.data[i]);
            proof {
                lemma_rows_model_push(rows@, row);
            }
            rows.push(row);
            i = i + 1;
            assert(rows_model(rows@) =~= rows_model(self.data@).take(i as int));
        }
        assert(rows_model(self.data@).take(self.data@.len() as int) =~= rows_model(self.data@));
        TableStruct { data: rows }
    }
}

impl TableData {
    /// A copy, at every depth.
    pub fn duplicate(&self) -> (r: TableData)
        ensures
            r@ == self@,
        decreases self,
    {
        match self {
            TableData::Int8(x) => TableData::Int8(*x),
            TableData::UInt8(x) => TableData::UInt8(*x),
            TableData::Int16(x) => TableData::Int16(*x),
            TableData::UInt16(x) => TableData::UInt16(*x),
            TableData::Int32(x) => TableData::Int32(*x),
            TableData::UInt32(x) => TableData::UInt32(*x),
            TableData::Int64(x) => TableData::Int64(*x),
            TableData::UInt64(x) => TableData::UInt64(*x),
            TableData::StringId(x) => TableData::StringId(*x),
            TableData::Str(t) => TableData::Str(t.duplicate()),
            TableData::Struct(ts) => {
                let copy = ts.duplicate();
                proof {
                    lemma_struct_view(*ts);
                    lemma_struct_view(copy);
                }
                TableData::Struct(copy)
            },
            TableData::Int8List(l) => TableData::Int8List(copy_list(l)),
            TableData::UInt8List(l) => TableData::UInt8List(copy_list(l)),
            TableData::Int16List(l) => TableData::Int16List(copy_list(l)),
            TableData::UInt16List(l) => TableData::UInt16List(copy_list(l)),
            TableData::Int32List(l) => TableData::Int32List(copy_list(l)),
            TableData::UInt32List(l) => TableData::UInt32List(copy_list(l)),
            TableData::Int64List(l) => TableData::Int64List(copy_list(l)),
            TableData::UInt64List(l) => TableData::UInt64List(copy_list(l)),
            TableData::StringIdList(l) => TableData::StringIdList(copy_list(l)),
        }
    }
}

} // verus!
