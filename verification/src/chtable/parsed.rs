use crate::chtable::property::PropertyModel;
use crate::chtable::schema::SleType;
use crate::chtable::value::{
    FieldModel, fields_fit, fields_len, fields_lens, fields_writable, int_item, ints_fit,
    is_list_tag, is_scalar_tag, rows_fit, rows_lens, rows_writable, spec_parse_fields,
    spec_parse_int, spec_parse_rows, spec_parse_value, tag_signed, tag_width, value_fits, value_len,
    value_writable, ValueModel,
};
use crate::error::Error;
use crate::gamma::{lemma_gamma_shortest, spec_gamma_length, spec_parse_gamma};
use crate::repeat::{parse_n, total};
use crate::text::{spec_parse_text, text_len};
use crate::wire::{int_at, int_fits, is_width, uint_at, uint_limit};
use vstd::prelude::*;

verus! {

/// What is read as an integer of `w` bytes is an integer of that type.
pub proof fn lemma_int_at_fits(s: Seq<u8>, pos: int, w: int, signed: bool)
    requires
        is_width(w),
    ensures
        int_fits(int_at(s, pos, w, signed), w, signed),
{
    let v = uint_at(s, pos, w);
    assert(0 <= v < uint_limit(w));
}

/// A gamma that was read ends inside the input and took at least as many
/// bytes as its shortest form.
pub proof fn lemma_parsed_gamma(s: Seq<u8>, pos: int, n: u32, q: int)
    requires
        spec_parse_gamma(s, pos) == Ok::<(u32, int), Error>((n, q)),
    ensures
        0 <= pos,
        pos + spec_gamma_length(n) <= q <= s.len(),
{
    lemma_gamma_shortest(s, pos, n, q);
}

/// A string that was read ends inside the input, is at most `u32::MAX`
/// bytes long and took at least as many bytes as its wire form.
pub proof fn lemma_parsed_text(s: Seq<u8>, pos: int, t: Seq<u8>, q: int)
    requires
        spec_parse_text(s, pos) == Ok::<(Seq<u8>, int), Error>((t, q)),
    ensures
        0 <= pos,
        t.len() <= u32::MAX,
        pos + text_len(t) <= q <= s.len(),
{
    let (n, p) = spec_parse_gamma(s, pos).unwrap();
    lemma_parsed_gamma(s, pos, n, p);
}

/// Integers that were read one after the other: as many as were asked for,
/// each of the type, `w` bytes each, all inside the input.
pub proof fn lemma_parsed_ints(s: Seq<u8>, pos: int, w: int, signed: bool, n: nat, xs: Seq<int>, q: int)
    requires
        is_width(w),
        0 <= pos <= s.len(),
        parse_n(int_item(w, signed), s, pos, n) == Ok::<(Seq<int>, int), Error>((xs, q)),
    ensures
        xs.len() == n,
        ints_fit(xs, w, signed),
        q == pos + n * w,
        q <= s.len(),
    decreases n,
{
    if n > 0 {
        let (x, p) = spec_parse_int(s, pos, w, signed).unwrap();
        let (rest, r) = parse_n(int_item(w, signed), s, p, (n - 1) as nat).unwrap();
        lemma_parsed_ints(s, p, w, signed, (n - 1) as nat, rest, r);
        lemma_int_at_fits(s, pos, w, signed);
        assert(xs =~= seq![x] + rest);
        assert(w + (n - 1) * w == n * w) by (nonlinear_arith);
    } else {
        assert(0 * w == 0) by (nonlinear_arith);
    }
}

/// A value that was read as one of the type of `prop` is of that type, all
/// its counts fit 32 bits, it ends inside the input and it took at least as
/// many bytes as its wire form.
pub proof fn lemma_parsed_value(s: Seq<u8>, pos: int, prop: PropertyModel, v: ValueModel, q: int)
    requires
        spec_parse_value(s, pos, prop) == Ok::<(ValueModel, int), Error>((v, q)),
    ensures
        value_fits(v, prop),
        value_writable(v),
        0 <= pos,
        pos + value_len(v) <= q <= s.len(),
        value_len(v) >= 1,
    decreases prop, 0nat, 0nat,
{
    if is_scalar_tag(prop.tag) {
        lemma_int_at_fits(s, pos, tag_width(prop.tag), tag_signed(prop.tag));
    } else if is_list_tag(prop.tag) {
        let (n, p) = spec_parse_gamma(s, pos).unwrap();
        lemma_parsed_gamma(s, pos, n, p);
        let w = tag_width(prop.tag);
        let (xs, r) = parse_n(int_item(w, tag_signed(prop.tag)), s, p, n as nat).unwrap();
        lemma_parsed_ints(s, p, w, tag_signed(prop.tag), n as nat, xs, r);
        assert(n * w >= 0) by (nonlinear_arith)
            requires
                n >= 0,
                w >= 0,
        ;
    } else if prop.tag == SleType::Str {
        let (t, r) = spec_parse_text(s, pos).unwrap();
        lemma_parsed_text(s, pos, t, r);
    } else {
        let (n, p) = spec_parse_gamma(s, pos).unwrap();
        lemma_parsed_gamma(s, pos, n, p);
        let (rows, r) = spec_parse_rows(s, p, prop.sub, n as nat).unwrap();
        lemma_parsed_rows(s, p, prop.sub, n as nat, rows, r);
    }
}

/// Rows that were read one after the other: as many as were asked for, each
/// with the fields that `schema` names, all counts fitting 32 bits, all
/// inside the input, and at least as many bytes as their wire forms.
pub proof fn lemma_parsed_rows(
    s: Seq<u8>,
    pos: int,
    schema: Seq<PropertyModel>,
    n: nat,
    rows: Seq<Seq<FieldModel>>,
    q: int,
)
    requires
        0 <= pos <= s.len(),
        spec_parse_rows(s, pos, schema, n) == Ok::<(Seq<Seq<FieldModel>>, int), Error>(
            (rows, q),
        ),
    ensures
        rows.len() == n,
        rows_fit(rows, schema),
        rows_writable(rows),
        pos + total(rows_lens(rows)) <= q <= s.len(),
    decreases schema, 1nat, n,
{
    if n > 0 {
        let (row, p) = spec_parse_fields(s, pos, schema, 0).unwrap();
        lemma_parsed_fields(s, pos, schema, 0, row, p);
        let (rest, r) = spec_parse_rows(s, p, schema, (n - 1) as nat).unwrap();
        lemma_parsed_rows(s, p, schema, (n - 1) as nat, rest, r);
        assert(rows =~= seq![row] + rest);
        assert forall|i: int| 0 <= i < rows.len() implies fields_fit(#[trigger] rows[i], schema)
            && fields_writable(rows[i]) by {
            if i > 0 {
                assert(rows[i] == rest[i - 1]);
            }
        }
        lemma_total_front(rows_lens(rows));
        assert(rows_lens(rows).drop_first() =~= rows_lens(rest));
    } else {
        assert(rows_lens(rows) =~= Seq::<nat>::empty());
    }
}

/// Fields that were read from the `i`-th property of `schema` on: one for
/// each property, under its key and of its type, all counts fitting 32 bits,
/// all inside the input, and at least as many bytes as their wire forms.
pub proof fn lemma_parsed_fields(
    s: Seq<u8>,
    pos: int,
    schema: Seq<PropertyModel>,
    i: int,
    fields: Seq<FieldModel>,
    q: int,
)
    requires
        0 <= pos <= s.len(),
        0 <= i <= schema.len(),
        spec_parse_fields(s, pos, schema, i) == Ok::<(Seq<FieldModel>, int), Error>(
            (fields, q),
        ),
    ensures
        fields.len() == schema.len() - i,
        forall|j: int|
            0 <= j < fields.len() ==> (#[trigger] fields[j]).0 == schema[i + j].key && value_fits(
                fields[j].1,
                schema[i + j],
            ),
        i == 0 ==> fields_fit(fields, schema),
        fields_writable(fields),
        pos + fields_len(fields) <= q <= s.len(),
        fields.len() <= fields_len(fields),
    decreases schema, 0nat, schema.len() - i,
{
    if i < schema.len() {
        let (v, p) = spec_parse_value(s, pos, schema[i]).unwrap();
        lemma_parsed_value(s, pos, schema[i], v, p);
        let (rest, r) = spec_parse_fields(s, p, schema, i + 1).unwrap();
        lemma_parsed_fields(s, p, schema, i + 1, rest, r);
        assert(fields =~= seq![(schema[i].key, v)] + rest);
        assert forall|j: int| 0 <= j < fields.len() implies (#[trigger] fields[j]).0 == schema[i
            + j].key && value_fits(fields[j].1, schema[i + j]) && value_writable(fields[j].1) by {
            if j > 0 {
                assert(fields[j] == rest[j - 1]);
            }
        }
        lemma_total_front(fields_lens(fields));
        assert(fields_lens(fields).drop_first() =~= fields_lens(rest));
    } else {
        assert(fields_lens(fields) =~= Seq::<nat>::empty());
    }
}

/// A sum is its first number and the sum of the others.
pub proof fn lemma_total_front(ns: Seq<nat>)
    requires
        ns.len() > 0,
    ensures
        total(ns) == ns[0] + total(ns.drop_first()),
    decreases ns.len(),
{
    if ns.len() == 1 {
        assert(ns.drop_last() =~= Seq::<nat>::empty());
        assert(ns.drop_first() =~= Seq::<nat>::empty());
    } else {
        lemma_total_front(ns.drop_last());
        assert(ns.drop_last().drop_first() =~= ns.drop_first().drop_last());
    }
}

} // verus!
