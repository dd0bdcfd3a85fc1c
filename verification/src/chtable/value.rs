use crate::chtable::property::PropertyModel;
use crate::chtable::schema::SleType;
use crate::error::Error;
use crate::gamma::{gamma_bytes, spec_gamma_length, spec_parse_gamma};
use crate::repeat::{concat, parse_n, total, with_prefix};
use crate::text::{spec_parse_text, text_bytes, text_len};
use crate::wire::{int_at, int_bytes, int_fits};
use vstd::prelude::*;

verus! {

/// One field of a row: its key and its value.
pub type FieldModel = (Seq<u8>, ValueModel);

/// A typed value: an integer or a list of integers with the tag of its
/// type, a string, or the rows of a nested struct.
pub enum ValueModel {
    Int(SleType, int),
    List(SleType, Seq<int>),
    Str(Seq<u8>),
    Rows(Seq<Seq<FieldModel>>),
}

/// Number of bytes of one integer of the type that the tag names, alone or
/// in a list; 0 for `Str` and `Struct`.
pub open spec fn tag_width(t: SleType) -> int {
    match t {
        SleType::Int8 | SleType::UInt8 | SleType::Int8List | SleType::UInt8List => 1,
        SleType::Int16
        | SleType::UInt16
        | SleType::StringId
        | SleType::Int16List
        | SleType::UInt16List
        | SleType::StringIdList => 2,
        SleType::Int32 | SleType::UInt32 | SleType::Int32List | SleType::UInt32List => 4,
        SleType::Int64 | SleType::UInt64 | SleType::Int64List | SleType::UInt64List => 8,
        SleType::Str | SleType::Struct => 0,
    }
}

/// Whether the integers of the type that the tag names are signed.
pub open spec fn tag_signed(t: SleType) -> bool {
    match t {
        SleType::Int8
        | SleType::Int16
        | SleType::Int32
        | SleType::Int64
        | SleType::Int8List
        | SleType::Int16List
        | SleType::Int32List
        | SleType::Int64List => true,
        _ => false,
    }
}

/// Whether the tag names a single integer.
pub open spec fn is_scalar_tag(t: SleType) -> bool {
    match t {
        SleType::Int8
        | SleType::UInt8
        | SleType::Int16
        | SleType::UInt16
        | SleType::Int32
        | SleType::UInt32
        | SleType::Int64
        | SleType::UInt64
        | SleType::StringId => true,
        _ => false,
    }
}

/// Whether the tag names a list of integers.
pub open spec fn is_list_tag(t: SleType) -> bool {
    match t {
        SleType::Int8List
        | SleType::UInt8List
        | SleType::Int16List
        | SleType::UInt16List
        | SleType::Int32List
        | SleType::UInt32List
        | SleType::Int64List
        | SleType::UInt64List
        | SleType::StringIdList => true,
        _ => false,
    }
}

/// Reading one integer of `w` bytes from `s` at `pos`.
pub open spec fn spec_parse_int(s: Seq<u8>, pos: int, w: int, signed: bool) -> Result<
    (int, int),
    Error,
> {
    if pos < 0 || pos + w > s.len() {
        Err(Error::Truncated)
    } else {
        Ok((int_at(s, pos, w, signed), pos + w))
    }
}

/// `spec_parse_int` for a width and a signedness, as a value.
pub open spec fn int_item(w: int, signed: bool) -> spec_fn(Seq<u8>, int) -> Result<
    (int, int),
    Error,
> {
    |s: Seq<u8>, pos: int| spec_parse_int(s, pos, w, signed)
}

/// Reading a list of integers from `s` at `pos`: the count as a gamma, then
/// that many integers of `w` bytes.
pub open spec fn spec_parse_list(s: Seq<u8>, pos: int, w: int, signed: bool) -> Result<
    (Seq<int>, int),
    Error,
> {
    match spec_parse_gamma(s, pos) {
        Err(e) => Err(e),
        Ok((n, q)) => parse_n(int_item(w, signed), s, q, n as nat),
    }
}

/// The wire forms of the integers `xs`, each on its own.
pub open spec fn ints_encs(xs: Seq<int>, w: int, signed: bool) -> Seq<Seq<u8>> {
    Seq::new(xs.len(), |i: int| int_bytes(xs[i], w, signed))
}

/// The wire form of a list of integers.
pub open spec fn list_bytes(xs: Seq<int>, w: int, signed: bool) -> Seq<u8> {
    gamma_bytes(xs.len() as u32) + concat(ints_encs(xs, w, signed))
}

/// Number of bytes of the wire form of a list of `n` integers of `w` bytes.
pub open spec fn list_len(n: nat, w: int) -> nat {
    (spec_gamma_length(n as u32) + n * w) as nat
}

/// Reading a value of the type of `prop` from `s` at `pos`. The rows of a
/// nested struct are read against the schema under `prop`.
pub open spec fn spec_parse_value(s: Seq<u8>, pos: int, prop: PropertyModel) -> Result<
    (ValueModel, int),
    Error,
>
    decreases prop, 0nat, 0nat,
{
    if is_scalar_tag(prop.tag) {
        match spec_parse_int(s, pos, tag_width(prop.tag), tag_signed(prop.tag)) {
            Err(e) => Err(e),
            Ok((x, q)) => Ok((ValueModel::Int(prop.tag, x), q)),
        }
    } else if is_list_tag(prop.tag) {
        match spec_parse_list(s, pos, tag_width(prop.tag), tag_signed(prop.tag)) {
            Err(e) => Err(e),
            Ok((xs, q)) => Ok((ValueModel::List(prop.tag, xs), q)),
        }
    } else if prop.tag == SleType::Str {
        match spec_parse_text(s, pos) {
            Err(e) => Err(e),
            Ok((t, q)) => Ok((ValueModel::Str(t), q)),
        }
    } else {
        match spec_parse_gamma(s, pos) {
            Err(e) => Err(e),
            Ok((n, q)) => match spec_parse_rows(s, q, prop.sub, n as nat) {
                Err(e) => Err(e),
                Ok((rows, r)) => Ok((ValueModel::Rows(rows), r)),
            },
        }
    }
}

/// Reading `n` rows of a nested struct one after the other, each against
/// `schema`.
pub open spec fn spec_parse_rows(s: Seq<u8>, pos: int, schema: Seq<PropertyModel>, n: nat) -> Result<
    (Seq<Seq<FieldModel>>, int),
    Error,
>
    decreases schema, 1nat, n,
{
    if n == 0 {
        Ok((Seq::empty(), pos))
    } else {
        match spec_parse_fields(s, pos, schema, 0) {
            Err(e) => Err(e),
            Ok((row, q)) => with_prefix(seq![row], spec_parse_rows(s, q, schema, (n - 1) as nat)),
        }
    }
}

/// Reading the fields of one row from the `i`-th property of `schema` on:
/// one value for each property, in order, under the property's key.
pub open spec fn spec_parse_fields(s: Seq<u8>, pos: int, schema: Seq<PropertyModel>, i: int) -> Result<
    (Seq<FieldModel>, int),
    Error,
>
    decreases schema, 0nat, schema.len() - i,
{
    if i < 0 || i >= schema.len() {
        Ok((Seq::empty(), pos))
    } else {
        match spec_parse_value(s, pos, schema[i]) {
            Err(e) => Err(e),
            Ok((v, q)) => with_prefix(
                seq![(schema[i].key, v)],
                spec_parse_fields(s, q, schema, i + 1),
            ),
        }
    }
}

/// The wire form of a value.
pub open spec fn value_bytes(v: ValueModel) -> Seq<u8>
    decreases v, 0nat,
{
    match v {
        ValueModel::Int(t, x) => int_bytes(x, tag_width(t), tag_signed(t)),
        ValueModel::List(t, xs) => list_bytes(xs, tag_width(t), tag_signed(t)),
        ValueModel::Str(b) => text_bytes(b),
        ValueModel::Rows(rows) => gamma_bytes(rows.len() as u32) + concat(rows_encs(rows)),
    }
}

/// The wire forms of the rows of a nested struct, each on its own.
pub open spec fn rows_encs(rows: Seq<Seq<FieldModel>>) -> Seq<Seq<u8>>
    decreases rows, 2nat,
{
    Seq::new(
        rows.len(),
        |i: int|
            if 0 <= i < rows.len() {
                fields_bytes(rows[i])
            } else {
                Seq::empty()
            },
    )
}

/// The wire form of the fields of one row: the values, one after the other.
pub open spec fn fields_bytes(fields: Seq<FieldModel>) -> Seq<u8>
    decreases fields, 1nat,
{
    concat(fields_encs(fields))
}

/// The wire forms of the values of the fields of one row, each on its own.
pub open spec fn fields_encs(fields: Seq<FieldModel>) -> Seq<Seq<u8>>
    decreases fields, 0nat,
{
    Seq::new(
        fields.len(),
        |j: int|
            if 0 <= j < fields.len() {
                value_bytes(fields[j].1)
            } else {
                Seq::empty()
            },
    )
}

/// Number of bytes of the wire form of a value: the width of an integer;
/// for a string and a list, the length of the count and then the bytes or the
/// integers; for the rows of a nested struct, the length of the count and
/// then the sum over the rows of the sum over their fields.
pub open spec fn value_len(v: ValueModel) -> nat
    decreases v, 0nat,
{
    match v {
        ValueModel::Int(t, x) => tag_width(t) as nat,
        ValueModel::List(t, xs) => list_len(xs.len(), tag_width(t)),
        ValueModel::Str(b) => text_len(b),
        ValueModel::Rows(rows) => spec_gamma_length(rows.len() as u32) + total(rows_lens(rows)),
    }
}

/// The lengths of the wire forms of the rows of a nested struct.
pub open spec fn rows_lens(rows: Seq<Seq<FieldModel>>) -> Seq<nat>
    decreases rows, 2nat,
{
    Seq::new(
        rows.len(),
        |i: int|
            if 0 <= i < rows.len() {
                fields_len(rows[i])
            } else {
                0nat
            },
    )
}

/// Number of bytes of the wire form of the fields of one row.
pub open spec fn fields_len(fields: Seq<FieldModel>) -> nat
    decreases fields, 1nat,
{
    total(fields_lens(fields))
}

/// The lengths of the wire forms of the values of the fields of one row.
pub open spec fn fields_lens(fields: Seq<FieldModel>) -> Seq<nat>
    decreases fields, 0nat,
{
    Seq::new(
        fields.len(),
        |j: int|
            if 0 <= j < fields.len() {
                value_len(fields[j].1)
            } else {
                0nat
            },
    )
}

/// Every integer of `xs` is one of the type of `w` bytes, signed or not.
pub open spec fn ints_fit(xs: Seq<int>, w: int, signed: bool) -> bool {
    forall|i: int| 0 <= i < xs.len() ==> int_fits(#[trigger] xs[i], w, signed)
}

/// A value is of the type of `prop`: it has the property's tag, every
/// integer is one of the tag's type, and every row of a nested struct has the
/// fields that the schema under `prop` names, in order.
pub open spec fn value_fits(v: ValueModel, prop: PropertyModel) -> bool
    decreases prop, 0nat,
{
    match v {
        ValueModel::Int(t, x) => t == prop.tag && is_scalar_tag(t) && int_fits(
            x,
            tag_width(t),
            tag_signed(t),
        ),
        ValueModel::List(t, xs) => t == prop.tag && is_list_tag(t) && ints_fit(
            xs,
            tag_width(t),
            tag_signed(t),
        ),
        ValueModel::Str(b) => prop.tag == SleType::Str,
        ValueModel::Rows(rows) => prop.tag == SleType::Struct && rows_fit(rows, prop.sub),
    }
}

/// Every row has the fields that `schema` names.
pub open spec fn rows_fit(rows: Seq<Seq<FieldModel>>, schema: Seq<PropertyModel>) -> bool
    decreases schema, 2nat,
{
    forall|i: int| 0 <= i < rows.len() ==> fields_fit(#[trigger] rows[i], schema)
}

/// The fields of a row are those that `schema` names: as many, with the
/// same keys in the same order, each value of its property's type.
pub open spec fn fields_fit(fields: Seq<FieldModel>, schema: Seq<PropertyModel>) -> bool
    decreases schema, 1nat,
{
    &&& fields.len() == schema.len()
    &&& forall|j: int|
        0 <= j < schema.len() ==> (#[trigger] fields[j]).0 == schema[j].key && value_fits(
            fields[j].1,
            schema[j],
        )
}

/// Every count in the value fits 32 bits, at every depth: the length of a
/// string, of a list, and the number of rows of a nested struct.
pub open spec fn value_writable(v: ValueModel) -> bool
    decreases v, 0nat,
{
    match v {
        ValueModel::Int(t, x) => true,
        ValueModel::List(t, xs) => xs.len() <= u32::MAX,
        ValueModel::Str(b) => b.len() <= u32::MAX,
        ValueModel::Rows(rows) => rows.len() <= u32::MAX && rows_writable(rows),
    }
}

/// Every count in the rows fits 32 bits, at every depth.
pub open spec fn rows_writable(rows: Seq<Seq<FieldModel>>) -> bool
    decreases rows, 2nat,
{
    forall|i: int| 0 <= i < rows.len() ==> fields_writable(#[trigger] rows[i])
}

/// Every count in the fields of a row fits 32 bits, at every depth.
pub open spec fn fields_writable(fields: Seq<FieldModel>) -> bool
    decreases fields, 1nat,
{
    forall|j: int| 0 <= j < fields.len() ==> value_writable((#[trigger] fields[j]).1)
}

} // verus!
