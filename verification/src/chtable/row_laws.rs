use crate::chtable::laws::{
    lemma_fields_bytes_len, lemma_fields_round_trip, lemma_tag_width, lemma_value_bytes_len,
};
use crate::chtable::parsed::{lemma_parsed_fields, lemma_parsed_gamma};
use crate::chtable::property::PropertyModel;
use crate::chtable::row::{
    row_bytes, row_fits, row_len, row_size, row_writable, RowModel, sparse_row_bytes,
    sparse_row_len, sparse_row_size, sparse_row_writable, SparseRowModel, spec_check_row,
    spec_check_sparse_row, spec_parse_row, spec_parse_row_body, spec_parse_sparse_row,
};
use crate::chtable::value::{
    FieldModel, fields_bytes, fields_encs, fields_fit, fields_len, fields_lens, fields_writable,
    spec_parse_fields, tag_width, value_fits, value_len,
};
use crate::chtable::value::ValueModel::{Int, List};
use crate::error::Error;
use crate::gamma::{
    gamma_bytes, lemma_gamma_bytes_len, lemma_gamma_parse_at, spec_gamma_length, spec_parse_gamma,
};
use crate::repeat::{lemma_concat_take, total};
use crate::wire::{has_at, lemma_has_at_split};
use vstd::prelude::*;

verus! {

/// The shortest form of a number that is not zero does not start with a
/// zero byte.
pub proof fn lemma_gamma_first_byte(u: u32)
    requires
        u >= 1,
    ensures
        gamma_bytes(u).len() >= 1,
        gamma_bytes(u)[0] != 0,
{
}

/// A sum of numbers that are all at least 1 is at least their count.
proof fn lemma_total_lower(ns: Seq<nat>)
    requires
        forall|i: int| 0 <= i < ns.len() ==> #[trigger] ns[i] >= 1,
    ensures
        total(ns) >= ns.len(),
    decreases ns.len(),
{
    if ns.len() > 0 {
        lemma_total_lower(ns.drop_last());
    }
}

/// Fields that a schema names take at least one byte each.
pub proof fn lemma_fields_len_lower(fields: Seq<FieldModel>, schema: Seq<PropertyModel>)
    requires
        fields_fit(fields, schema),
    ensures
        fields_len(fields) >= fields.len(),
{
    let lens = fields_lens(fields);
    assert forall|j: int| 0 <= j < lens.len() implies #[trigger] lens[j] >= 1 by {
        assert(fields[j].0 == schema[j].key && value_fits(fields[j].1, schema[j]));
        lemma_value_bytes_len(fields[j].1, schema[j]);
        lemma_value_len_lower(fields[j].1, schema[j]);
    }
    lemma_total_lower(lens);
}

/// A value of the type of a property takes at least one byte.
pub proof fn lemma_value_len_lower(v: crate::chtable::value::ValueModel, prop: PropertyModel)
    requires
        value_fits(v, prop),
    ensures
        value_len(v) >= 1,
{
    match v {
        Int(t, x) => {
            lemma_tag_width(t);
        },
        List(t, xs) => {
            lemma_tag_width(t);
            assert(xs.len() * tag_width(t) >= 0) by (nonlinear_arith)
                requires
                    xs.len() >= 0,
                    tag_width(t) >= 0,
            ;
        },
        _ => {},
    }
}

/// What follows the size of a row is read back: the fields and then the
/// leftover, wherever they stand.
proof fn lemma_row_body_round_trip(
    row: RowModel,
    schema: Seq<PropertyModel>,
    s: Seq<u8>,
    pos: int,
    size: u32,
    taken: int,
)
    requires
        row_fits(row, schema),
        fields_writable(row.fields),
        size == 1 + taken + fields_len(row.fields) + row.leftover.len(),
        taken >= 0,
        taken >= 1 ==> fields_fit(row.fields, schema),
        has_at(s, pos, fields_bytes(row.fields) + row.leftover),
    ensures
        spec_parse_row_body(s, pos, schema, size, taken) == Ok::<(RowModel, int), Error>(
            (row, pos + fields_len(row.fields) + row.leftover.len()),
        ),
{
    lemma_has_at_split(s, pos, fields_bytes(row.fields), row.leftover);
    if fields_fit(row.fields, schema) {
        lemma_fields_round_trip(row.fields, schema, s, pos);
        lemma_fields_len_lower(row.fields, schema);
        if size <= 1 {
            assert(row.fields =~= Seq::<FieldModel>::empty());
            assert(row.leftover =~= Seq::<u8>::empty());
        }
    } else {
        assert(row.fields =~= Seq::<FieldModel>::empty());
        assert(fields_lens(row.fields) =~= Seq::<nat>::empty());
        assert(row.leftover =~= Seq::<u8>::empty());
        assert(fields_bytes(row.fields).len() == 0) by {
            lemma_concat_take(fields_encs(row.fields), 0);
            assert(fields_encs(row.fields).take(0)
                =~= fields_encs(row.fields));
        }
    }
}

/// Wherever the wire form of a row stands, reading a row of this schema
/// there gives the row back, leftover included, and stops right behind it,
/// provided the row belongs to the schema and can be written.
pub proof fn lemma_row_round_trip(row: RowModel, schema: Seq<PropertyModel>, s: Seq<u8>, pos: int)
    requires
        row_fits(row, schema),
        row_writable(row),
        has_at(s, pos, row_bytes(row)),
    ensures
        spec_parse_row(s, pos, schema) == Ok::<(RowModel, int), Error>((row, pos + row_len(row))),
        row_bytes(row).len() == row_len(row),
        row_bytes(row)[0] != 0,
{
    let size = row_size(row) as u32;
    let g = gamma_bytes(size);
    let body = fields_bytes(row.fields) + row.leftover;
    assert(row_bytes(row) =~= g + body);
    lemma_has_at_split(s, pos, g, body);
    lemma_gamma_parse_at(s, pos, size);
    lemma_gamma_bytes_len(size);
    lemma_gamma_first_byte(size);
    lemma_row_fields_len(row, schema);
    lemma_row_body_round_trip(row, schema, s, pos + spec_gamma_length(size), size, 0);
}

/// The bytes of the fields of a row that belongs to a schema are as many
/// as `fields_len` says.
proof fn lemma_row_fields_len(row: RowModel, schema: Seq<PropertyModel>)
    requires
        row_fits(row, schema),
    ensures
        fields_bytes(row.fields).len() == fields_len(row.fields),
{
    if fields_fit(row.fields, schema) {
        lemma_fields_bytes_len(row.fields, schema);
    } else {
        assert(fields_lens(row.fields) =~= Seq::<nat>::empty());
        lemma_concat_take(fields_encs(row.fields), 0);
        assert(fields_encs(row.fields).take(0)
            =~= fields_encs(row.fields));
    }
}

/// Wherever the wire form of a sparse row stands, reading a sparse row of
/// this schema there gives the row back, index and leftover included, and
/// stops right behind it, provided the row has the fields that the schema
/// names and can be written.
pub proof fn lemma_sparse_row_round_trip(
    row: SparseRowModel,
    schema: Seq<PropertyModel>,
    s: Seq<u8>,
    pos: int,
)
    requires
        fields_fit(row.fields, schema),
        sparse_row_writable(row),
        has_at(s, pos, sparse_row_bytes(row)),
    ensures
        spec_parse_sparse_row(s, pos, schema) == Ok::<(SparseRowModel, int), Error>(
            (row, pos + sparse_row_len(row)),
        ),
        sparse_row_bytes(row).len() == sparse_row_len(row),
        sparse_row_bytes(row)[0] != 0,
{
    let size = sparse_row_size(row) as u32;
    let g = gamma_bytes(size);
    let gi = gamma_bytes(row.index);
    let body = fields_bytes(row.fields) + row.leftover;
    assert(sparse_row_bytes(row) =~= g + (gi + body));
    lemma_has_at_split(s, pos, g, gi + body);
    lemma_gamma_parse_at(s, pos, size);
    lemma_gamma_bytes_len(size);
    lemma_gamma_first_byte(size);
    let q = pos + spec_gamma_length(size);
    lemma_has_at_split(s, q, gi, body);
    lemma_gamma_parse_at(s, q, row.index);
    lemma_gamma_bytes_len(row.index);
    lemma_fields_bytes_len(row.fields, schema);
    let plain = RowModel { fields: row.fields, leftover: row.leftover };
    lemma_row_body_round_trip(
        plain,
        schema,
        s,
        q + spec_gamma_length(row.index),
        size,
        spec_gamma_length(row.index) as int,
    );
}

/// Leftover preservation: the wire form of a row ends with the row's
/// leftover bytes, as they are.
pub proof fn lemma_row_leftover(row: RowModel)
    ensures
        has_at(row_bytes(row), row_bytes(row).len() - row.leftover.len(), row.leftover),
{
    let b = row_bytes(row);
    assert(b.subrange(b.len() - row.leftover.len(), b.len() as int) =~= row.leftover);
}

/// Leftover preservation: the wire form of a sparse row ends with the row's
/// leftover bytes, as they are.
pub proof fn lemma_sparse_row_leftover(row: SparseRowModel)
    ensures
        has_at(
            sparse_row_bytes(row),
            sparse_row_bytes(row).len() - row.leftover.len(),
            row.leftover,
        ),
{
    let b = sparse_row_bytes(row);
    assert(b.subrange(b.len() - row.leftover.len(), b.len() as int) =~= row.leftover);
}

/// What was read behind the size of a row: the fields and the leftover
/// take, with `taken`, one byte less than the size; the fields are those
/// of the schema where the size is more than 1, and none else; and all of
/// it stands inside the input.
proof fn lemma_parsed_row_body(
    s: Seq<u8>,
    pos: int,
    schema: Seq<PropertyModel>,
    size: u32,
    taken: int,
    row: RowModel,
    q: int,
)
    requires
        0 <= pos <= s.len(),
        size >= 1,
        taken >= 0,
        spec_parse_row_body(s, pos, schema, size, taken) == Ok::<(RowModel, int), Error>(
            (row, q),
        ),
    ensures
        fields_writable(row.fields),
        size == 1 + taken + fields_len(row.fields) + row.leftover.len(),
        size > 1 ==> fields_fit(row.fields, schema),
        size == 1 ==> row.fields.len() == 0 && row.leftover.len() == 0,
        pos <= q <= s.len(),
{
    if size > 1 {
        let (fields, r) = spec_parse_fields(s, pos, schema, 0).unwrap();
        lemma_parsed_fields(s, pos, schema, 0, fields, r);
    } else {
        assert(fields_lens(row.fields) =~= Seq::<nat>::empty());
    }
}

/// A row that was read can be written into a table of the schema it was
/// read against, and it stands inside the input.
pub proof fn lemma_parsed_row(s: Seq<u8>, pos: int, schema: Seq<PropertyModel>, row: RowModel, q: int)
    requires
        spec_parse_row(s, pos, schema) == Ok::<(RowModel, int), Error>((row, q)),
    ensures
        spec_check_row(row, schema) is Ok,
        0 <= pos < q <= s.len(),
{
    let (size, p) = spec_parse_gamma(s, pos).unwrap();
    lemma_parsed_gamma(s, pos, size, p);
    lemma_parsed_row_body(s, p, schema, size, 0, row, q);
}

/// A sparse row that was read can be written into a sparse table of the
/// schema it was read against, and it stands inside the input.
pub proof fn lemma_parsed_sparse_row(
    s: Seq<u8>,
    pos: int,
    schema: Seq<PropertyModel>,
    row: SparseRowModel,
    q: int,
)
    requires
        spec_parse_sparse_row(s, pos, schema) == Ok::<(SparseRowModel, int), Error>((row, q)),
    ensures
        spec_check_sparse_row(row, schema) is Ok,
        0 <= pos < q <= s.len(),
{
    let (size, p) = spec_parse_gamma(s, pos).unwrap();
    lemma_parsed_gamma(s, pos, size, p);
    let (index, r) = spec_parse_gamma(s, p).unwrap();
    lemma_parsed_gamma(s, p, index, r);
    let taken = spec_gamma_length(index) as int;
    let (plain, t) = spec_parse_row_body(s, r, schema, size, taken).unwrap();
    lemma_parsed_row_body(s, r, schema, size, taken, plain, t);
}

} // verus!
