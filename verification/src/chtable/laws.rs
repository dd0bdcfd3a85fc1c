use crate::chtable::property::PropertyModel;
use crate::chtable::schema::SleType;
use crate::chtable::value::{
    FieldModel, fields_bytes, fields_encs, fields_fit, fields_len, fields_lens, fields_writable,
    int_item, ints_encs, ints_fit, is_list_tag, is_scalar_tag, list_bytes, list_len, rows_encs,
    rows_fit, rows_lens, rows_writable, spec_parse_fields, spec_parse_list, spec_parse_rows,
    spec_parse_value, tag_signed, tag_width, value_bytes, value_fits, value_len, value_writable,
    ValueModel,
};
use crate::error::Error;
use crate::gamma::{gamma_bytes, lemma_gamma_bytes_len, lemma_gamma_parse_at, spec_gamma_length};
use crate::repeat::{
    concat, lemma_concat_first, lemma_concat_len, lemma_concat_take, lemma_concat_uniform,
    lemma_parse_n_round_trip, total,
};
use crate::text::{lemma_text_bytes_len, lemma_text_round_trip};
use crate::wire::{has_at, is_width, lemma_has_at_split, lemma_int_bytes_len, lemma_int_round_trip};
use vstd::prelude::*;

verus! {

/// The tags of integers and of lists of integers name a width of 1, 2, 4 or
/// 8 bytes.
pub proof fn lemma_tag_width(t: SleType)
    requires
        is_scalar_tag(t) || is_list_tag(t),
    ensures
        is_width(tag_width(t)),
{
}

/// The wire form of a list of integers is as long as `list_len` says.
pub proof fn lemma_list_bytes_len(xs: Seq<int>, w: int, signed: bool)
    requires
        is_width(w),
    ensures
        list_bytes(xs, w, signed).len() == list_len(xs.len(), w),
        concat(ints_encs(xs, w, signed)).len() == xs.len() * w,
{
    let enc = ints_encs(xs, w, signed);
    assert forall|i: int| 0 <= i < enc.len() implies (#[trigger] enc[i]).len() == w by {
        lemma_int_bytes_len(xs[i], w, signed);
    }
    lemma_concat_uniform(enc, w);
    lemma_gamma_bytes_len(xs.len() as u32);
    assert(xs.len() * w >= 0) by (nonlinear_arith)
        requires
            xs.len() >= 0,
            w >= 0,
    ;
}

/// Wherever the wire form of a list of at most `u32::MAX` integers of the
/// type of `w` bytes stands, reading a list there gives the list back and
/// stops right behind it.
pub proof fn lemma_list_round_trip(xs: Seq<int>, w: int, signed: bool, s: Seq<u8>, pos: int)
    requires
        is_width(w),
        xs.len() <= u32::MAX,
        ints_fit(xs, w, signed),
        has_at(s, pos, list_bytes(xs, w, signed)),
    ensures
        spec_parse_list(s, pos, w, signed) == Ok::<(Seq<int>, int), Error>(
            (xs, pos + list_len(xs.len(), w)),
        ),
{
    let g = gamma_bytes(xs.len() as u32);
    let enc = ints_encs(xs, w, signed);
    lemma_list_bytes_len(xs, w, signed);
    lemma_has_at_split(s, pos, g, concat(enc));
    lemma_gamma_parse_at(s, pos, xs.len() as u32);
    let q = pos + spec_gamma_length(xs.len() as u32);
    assert forall|i: int, p: int| 0 <= i < xs.len() && #[trigger] has_at(s, p, enc[i]) implies int_item(
        w,
        signed,
    )(s, p) == Ok::<(int, int), Error>((xs[i], p + enc[i].len())) by {
        lemma_int_bytes_len(xs[i], w, signed);
        lemma_int_round_trip(s, p, xs[i], w, signed);
    }
    lemma_parse_n_round_trip(int_item(w, signed), xs, enc, s, q);
}

/// The wire form of a value of the type of `prop` is as long as `value_len`
/// says.
pub proof fn lemma_value_bytes_len(v: ValueModel, prop: PropertyModel)
    requires
        value_fits(v, prop),
    ensures
        value_bytes(v).len() == value_len(v),
    decreases prop, 0nat,
{
    match v {
        ValueModel::Int(t, x) => {
            lemma_tag_width(t);
            lemma_int_bytes_len(x, tag_width(t), tag_signed(t));
        },
        ValueModel::List(t, xs) => {
            lemma_tag_width(t);
            lemma_list_bytes_len(xs, tag_width(t), tag_signed(t));
        },
        ValueModel::Str(b) => {
            lemma_text_bytes_len(b);
        },
        ValueModel::Rows(rows) => {
            lemma_gamma_bytes_len(rows.len() as u32);
            lemma_rows_bytes_len(rows, prop.sub);
        },
    }
}

/// The wire forms of rows that have the fields that `schema` names are as
/// long as `rows_lens` says.
pub proof fn lemma_rows_bytes_len(rows: Seq<Seq<FieldModel>>, schema: Seq<PropertyModel>)
    requires
        rows_fit(rows, schema),
    ensures
        concat(rows_encs(rows)).len() == total(rows_lens(rows)),
        forall|i: int| 0 <= i < rows.len() ==> (#[trigger] rows_encs(rows)[i]).len() == rows_lens(
            rows,
        )[i],
    decreases schema, 2nat,
{
    let enc = rows_encs(rows);
    assert forall|i: int| 0 <= i < rows.len() implies (#[trigger] enc[i]).len() == rows_lens(
        rows,
    )[i] by {
        assert(fields_fit(rows[i], schema));
        lemma_fields_bytes_len(rows[i], schema);
    }
    lemma_concat_len(enc);
    assert(enc.map_values(|e: Seq<u8>| e.len()) =~= rows_lens(rows));
}

/// The wire form of the fields that `schema` names is as long as
/// `fields_len` says.
pub proof fn lemma_fields_bytes_len(fields: Seq<FieldModel>, schema: Seq<PropertyModel>)
    requires
        fields_fit(fields, schema),
    ensures
        fields_bytes(fields).len() == fields_len(fields),
        forall|j: int|
            0 <= j < fields.len() ==> (#[trigger] fields_encs(fields)[j]).len() == fields_lens(
                fields,
            )[j],
    decreases schema, 1nat,
{
    let enc = fields_encs(fields);
    assert forall|j: int| 0 <= j < fields.len() implies (#[trigger] enc[j]).len() == fields_lens(
        fields,
    )[j] by {
        assert(fields[j].0 == schema[j].key && value_fits(fields[j].1, schema[j]));
        lemma_value_bytes_len(fields[j].1, schema[j]);
    }
    lemma_concat_len(enc);
    assert(enc.map_values(|e: Seq<u8>| e.len()) =~= fields_lens(fields));
}

/// Reading back rows that stand one after the other, given that each of
/// them is read back wherever it stands.
proof fn lemma_rows_parse(
    rows: Seq<Seq<FieldModel>>,
    enc: Seq<Seq<u8>>,
    schema: Seq<PropertyModel>,
    s: Seq<u8>,
    pos: int,
)
    requires
        enc.len() == rows.len(),
        has_at(s, pos, concat(enc)),
        forall|i: int, p: int|
            0 <= i < rows.len() && #[trigger] has_at(s, p, enc[i]) ==> spec_parse_fields(
                s,
                p,
                schema,
                0,
            ) == Ok::<(Seq<FieldModel>, int), Error>((rows[i], p + enc[i].len())),
    ensures
        spec_parse_rows(s, pos, schema, rows.len()) == Ok::<(Seq<Seq<FieldModel>>, int), Error>(
            (rows, pos + concat(enc).len()),
        ),
    decreases rows.len(),
{
    if rows.len() == 0 {
        assert(rows =~= Seq::<Seq<FieldModel>>::empty());
        assert(enc =~= Seq::<Seq<u8>>::empty());
        lemma_concat_take(enc, 0);
    } else {
        lemma_concat_first(enc);
        lemma_has_at_split(s, pos, enc[0], concat(enc.drop_first()));
        assert(has_at(s, pos, enc[0]));
        let q = pos + enc[0].len();
        let rows1 = rows.drop_first();
        let enc1 = enc.drop_first();
        assert forall|i: int, p: int|
            0 <= i < rows1.len() && #[trigger] has_at(s, p, enc1[i]) implies spec_parse_fields(
            s,
            p,
            schema,
            0,
        ) == Ok::<(Seq<FieldModel>, int), Error>((rows1[i], p + enc1[i].len())) by {
            assert(enc1[i] == enc[i + 1]);
            assert(has_at(s, p, enc[i + 1]));
        }
        lemma_rows_parse(rows1, enc1, schema, s, q);
        assert(seq![rows[0]] + rows1 =~= rows);
    }
}

/// Reading back the fields of a row from the `i`-th on, given that each
/// value is read back wherever it stands.
proof fn lemma_fields_parse(
    fields: Seq<FieldModel>,
    enc: Seq<Seq<u8>>,
    schema: Seq<PropertyModel>,
    s: Seq<u8>,
    pos: int,
    i: int,
)
    requires
        enc.len() == fields.len(),
        fields.len() == schema.len(),
        0 <= i <= fields.len(),
        has_at(s, pos, concat(enc.skip(i))),
        forall|j: int| 0 <= j < fields.len() ==> (#[trigger] fields[j]).0 == schema[j].key,
        forall|j: int, p: int|
            0 <= j < fields.len() && #[trigger] has_at(s, p, enc[j]) ==> spec_parse_value(
                s,
                p,
                schema[j],
            ) == Ok::<(ValueModel, int), Error>((fields[j].1, p + enc[j].len())),
    ensures
        spec_parse_fields(s, pos, schema, i) == Ok::<(Seq<FieldModel>, int), Error>(
            (fields.skip(i), pos + concat(enc.skip(i)).len()),
        ),
    decreases fields.len() - i,
{
    if i == fields.len() {
        assert(fields.skip(i) =~= Seq::<FieldModel>::empty());
        assert(enc.skip(i) =~= Seq::<Seq<u8>>::empty());
        lemma_concat_take(enc.skip(i), 0);
    } else {
        let e = enc.skip(i);
        lemma_concat_first(e);
        assert(e[0] == enc[i]);
        assert(e.drop_first() =~= enc.skip(i + 1));
        lemma_has_at_split(s, pos, enc[i], concat(enc.skip(i + 1)));
        assert(has_at(s, pos, enc[i]));
        let q = pos + enc[i].len();
        lemma_fields_parse(fields, enc, schema, s, q, i + 1);
        assert(fields[i].0 == schema[i].key);
        assert(seq![(schema[i].key, fields[i].1)] + fields.skip(i + 1) =~= fields.skip(i));
    }
}

/// Wherever the wire form of a value stands, reading a value of the type of
/// `prop` there gives the value back and stops right behind it, provided
/// the value is of that type and all its counts fit 32 bits.
pub proof fn lemma_value_round_trip(v: ValueModel, prop: PropertyModel, s: Seq<u8>, pos: int)
    requires
        value_fits(v, prop),
        value_writable(v),
        has_at(s, pos, value_bytes(v)),
    ensures
        spec_parse_value(s, pos, prop) == Ok::<(ValueModel, int), Error>(
            (v, pos + value_len(v)),
        ),
    decreases prop, 0nat,
{
    lemma_value_bytes_len(v, prop);
    match v {
        ValueModel::Int(t, x) => {
            lemma_tag_width(t);
            lemma_int_round_trip(s, pos, x, tag_width(t), tag_signed(t));
        },
        ValueModel::List(t, xs) => {
            lemma_tag_width(t);
            lemma_list_round_trip(xs, tag_width(t), tag_signed(t), s, pos);
        },
        ValueModel::Str(b) => {
            lemma_text_round_trip(s, pos, b);
        },
        ValueModel::Rows(rows) => {
            let g = gamma_bytes(rows.len() as u32);
            let enc = rows_encs(rows);
            lemma_has_at_split(s, pos, g, concat(enc));
            lemma_gamma_parse_at(s, pos, rows.len() as u32);
            lemma_gamma_bytes_len(rows.len() as u32);
            let q = pos + spec_gamma_length(rows.len() as u32);
            assert(rows_fit(rows, prop.sub));
            assert(rows_writable(rows));
            assert forall|i: int, p: int|
                0 <= i < rows.len() && #[trigger] has_at(s, p, enc[i]) implies spec_parse_fields(
                s,
                p,
                prop.sub,
                0,
            ) == Ok::<(Seq<FieldModel>, int), Error>((rows[i], p + enc[i].len())) by {
                assert(fields_fit(rows[i], prop.sub));
                assert(fields_writable(rows[i]));
                lemma_fields_round_trip(rows[i], prop.sub, s, p);
            }
            lemma_rows_parse(rows, enc, prop.sub, s, q);
            lemma_rows_bytes_len(rows, prop.sub);
        },
    }
}

/// Wherever the wire form of the fields of a row stands, reading the fields
/// that `schema` names there gives the fields back and stops right behind
/// them, provided the fields are those that `schema` names and all their
/// counts fit 32 bits.
pub proof fn lemma_fields_round_trip(
    fields: Seq<FieldModel>,
    schema: Seq<PropertyModel>,
    s: Seq<u8>,
    pos: int,
)
    requires
        fields_fit(fields, schema),
        fields_writable(fields),
        has_at(s, pos, fields_bytes(fields)),
    ensures
        spec_parse_fields(s, pos, schema, 0) == Ok::<(Seq<FieldModel>, int), Error>(
            (fields, pos + fields_len(fields)),
        ),
        fields_bytes(fields).len() == fields_len(fields),
    decreases schema, 1nat,
{
    let enc = fields_encs(fields);
    lemma_fields_bytes_len(fields, schema);
    assert(enc.skip(0) =~= enc);
    assert(fields.skip(0) =~= fields);
    assert forall|j: int| 0 <= j < fields.len() implies (#[trigger] fields[j]).0
        == schema[j].key by {}
    assert forall|j: int, p: int|
        0 <= j < fields.len() && #[trigger] has_at(s, p, enc[j]) implies spec_parse_value(
        s,
        p,
        schema[j],
    ) == Ok::<(ValueModel, int), Error>((fields[j].1, p + enc[j].len())) by {
        assert(fields[j].0 == schema[j].key && value_fits(fields[j].1, schema[j]));
        assert(value_writable(fields[j].1));
        lemma_value_round_trip(fields[j].1, schema[j], s, p);
        lemma_value_bytes_len(fields[j].1, schema[j]);
    }
    lemma_fields_parse(fields, enc, schema, s, pos, 0);
}

} // verus!
