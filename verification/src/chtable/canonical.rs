use crate::chtable::laws::{
    lemma_fields_bytes_len, lemma_fields_round_trip, lemma_tag_width, lemma_value_bytes_len,
    lemma_value_round_trip,
};
use crate::chtable::parsed::{
    lemma_parsed_fields, lemma_parsed_gamma, lemma_parsed_ints, lemma_parsed_rows,
    lemma_parsed_value,
};
use crate::chtable::parsed_schema::lemma_tree_of;
use crate::chtable::property::{
    header_of, lemma_header_of, lemma_schema_round_trip, PropertyModel, schema_bytes, schema_ok,
    spec_parse_schema,
};
use crate::chtable::row::{
    row_bytes, row_fits, row_size, row_writable, RowModel, sparse_row_bytes, sparse_row_size,
    sparse_row_writable, SparseRowModel, spec_parse_row, spec_parse_row_body, spec_parse_sparse_row,
};
use crate::chtable::row_laws::{lemma_row_round_trip, lemma_sparse_row_round_trip};
use crate::chtable::schema::{
    header_bytes, header_counts_ok, header_writable, HeaderModel, headers_encs,
    lemma_header_bytes_len, lemma_header_round_trip, lemma_prop_round_trip, lemma_tag_byte,
    prop_bytes, prop_item, props_encs, SleType, spec_from_tag, spec_parse_header,
    spec_parse_headers, spec_parse_prop, struct_count, tag_byte, WireProperty,
};
use crate::chtable::value::{
    FieldModel, fields_bytes, fields_encs, fields_fit, fields_len, fields_lens, fields_writable,
    int_item, ints_encs, is_list_tag, is_scalar_tag, rows_encs, rows_fit, rows_writable,
    spec_parse_fields, spec_parse_int, spec_parse_rows, spec_parse_value, tag_signed, tag_width,
    value_bytes, value_fits, value_writable, ValueModel,
};
use crate::error::Error;
use crate::gamma::{
    gamma_bytes, lemma_gamma_bytes_len, lemma_gamma_parse_at, spec_gamma_length, spec_parse_gamma,
};
use crate::repeat::{
    all_until_zero, concat, encs_of, lemma_concat_first, lemma_concat_take, lemma_subrange_join,
    lemma_until_zero_all, lemma_until_zero_exact, lemma_until_zero_round_trip, parse_n,
    parse_until_zero,
};
use crate::text::{lemma_text_round_trip, spec_parse_text, text_bytes};
use crate::wire::{has_at, is_width, lemma_has_at_split, lemma_int_bytes_at};
use vstd::prelude::*;

verus! {

/// A gamma stands in `s` at `pos` in its shortest form, as the writer
/// gives it.
pub open spec fn canonical_gamma(s: Seq<u8>, pos: int) -> bool {
    match spec_parse_gamma(s, pos) {
        Ok((v, q)) => s.subrange(pos, q) == gamma_bytes(v),
        Err(_) => false,
    }
}

/// A string stands in `s` at `pos` with its length in the shortest form.
pub open spec fn canonical_text(s: Seq<u8>, pos: int) -> bool {
    canonical_gamma(s, pos) && spec_parse_text(s, pos) is Ok
}

/// A string in that form is what the writer gives for it.
pub proof fn lemma_canonical_text(s: Seq<u8>, pos: int, t: Seq<u8>, q: int)
    requires
        canonical_text(s, pos),
        spec_parse_text(s, pos) == Ok::<(Seq<u8>, int), Error>((t, q)),
    ensures
        0 <= pos <= q <= s.len(),
        s.subrange(pos, q) == text_bytes(t),
{
    let (n, p) = spec_parse_gamma(s, pos).unwrap();
    lemma_parsed_gamma(s, pos, n, p);
    lemma_subrange_join(s, pos, p, q);
}

/// A property stands in `s` at `pos` with the length of its key in the
/// shortest form.
pub open spec fn canonical_prop(s: Seq<u8>, pos: int) -> bool {
    spec_parse_prop(s, pos) is Ok && canonical_text(s, pos + 1)
}

/// `canonical_prop` as a value.
pub open spec fn prop_canon() -> spec_fn(Seq<u8>, int) -> bool {
    |s: Seq<u8>, pos: int| canonical_prop(s, pos)
}

/// `prop_bytes` as a value.
pub open spec fn prop_enc() -> spec_fn(WireProperty) -> Seq<u8> {
    |p: WireProperty| prop_bytes(p)
}

/// A wire layout of a schema stands in `s` at `pos` with every length in
/// the shortest form.
pub open spec fn canonical_header(s: Seq<u8>, pos: int) -> bool
    decreases s.len() - pos, 0nat,
{
    &&& all_until_zero(prop_item(), prop_canon(), s, pos)
    &&& match parse_until_zero(prop_item(), s, pos) {
        Err(_) => false,
        Ok((props, q)) => if q <= pos || q > s.len() {
            false
        } else {
            canonical_headers(s, q, struct_count(props, props.len() as int))
        },
    }
}

/// `n` wire layouts stand in `s` one after the other from `pos` on, with
/// every length in the shortest form.
pub open spec fn canonical_headers(s: Seq<u8>, pos: int, n: nat) -> bool
    decreases s.len() - pos, n + 1,
{
    if n == 0 {
        true
    } else if pos < 0 || pos > s.len() {
        false
    } else {
        canonical_header(s, pos) && match spec_parse_header(s, pos) {
            Err(_) => false,
            Ok((_, q)) => if q < pos || q > s.len() {
                false
            } else {
                canonical_headers(s, q, (n - 1) as nat)
            },
        }
    }
}

/// A wire layout in that form is what the writer gives for it.
pub proof fn lemma_canonical_header(s: Seq<u8>, pos: int, h: HeaderModel, q: int)
    requires
        canonical_header(s, pos),
        spec_parse_header(s, pos) == Ok::<(HeaderModel, int), Error>((h, q)),
    ensures
        0 <= pos < q <= s.len(),
        s.subrange(pos, q) == header_bytes(h),
    decreases s.len() - pos, 0nat,
{
    let (props, p) = parse_until_zero(prop_item(), s, pos).unwrap();
    assert forall|a: int| #[trigger] prop_canon()(s, a) implies (prop_item()(s, a) matches Ok(
        (v, r),
    ) && 0 <= a <= r <= s.len() && s.subrange(a, r) == prop_enc()(v)) by {
        let (v, r) = spec_parse_prop(s, a).unwrap();
        let (k, r2) = spec_parse_text(s, a + 1).unwrap();
        lemma_canonical_text(s, a + 1, k, r2);
        lemma_subrange_join(s, a, a + 1, r);
        lemma_tag_byte(v.tag);
        assert(s.subrange(a, a + 1) =~= seq![s[a]]);
        assert(spec_from_tag(s[a]) == Some(v.tag));
        lemma_from_tag(s[a]);
    }
    lemma_until_zero_exact(prop_item(), prop_canon(), prop_enc(), s, pos, props, p);
    assert(encs_of(prop_enc(), props) =~= props_encs(props));
    let n = struct_count(props, props.len() as int);
    let (subs, r) = spec_parse_headers(s, p, n).unwrap();
    lemma_canonical_headers(s, p, n, subs, r);
    lemma_subrange_join(s, pos, p, r);
}

/// A byte that stands for a tag is the byte of that tag.
pub proof fn lemma_from_tag(b: u8)
    ensures
        spec_from_tag(b) matches Some(t)
            ==> tag_byte(t) == b,
{
}

/// Wire layouts in that form are what the writer gives for them.
pub proof fn lemma_canonical_headers(s: Seq<u8>, pos: int, n: nat, hs: Seq<HeaderModel>, q: int)
    requires
        0 <= pos <= s.len(),
        canonical_headers(s, pos, n),
        spec_parse_headers(s, pos, n) == Ok::<(Seq<HeaderModel>, int), Error>((hs, q)),
    ensures
        pos <= q <= s.len(),
        s.subrange(pos, q) == concat(headers_encs(hs)),
    decreases s.len() - pos, n + 1,
{
    if n == 0 {
        assert(headers_encs(hs) =~= Seq::<Seq<u8>>::empty());
        lemma_concat_take(headers_encs(hs), 0);
        assert(headers_encs(hs).take(0) =~= headers_encs(hs));
        assert(s.subrange(pos, q) =~= Seq::<u8>::empty());
    } else {
        let (h, p) = spec_parse_header(s, pos).unwrap();
        lemma_canonical_header(s, pos, h, p);
        let (rest, r) = spec_parse_headers(s, p, (n - 1) as nat).unwrap();
        lemma_canonical_headers(s, p, (n - 1) as nat, rest, r);
        assert(hs =~= seq![h] + rest);
        let e = headers_encs(hs);
        lemma_concat_first(e);
        assert(e.drop_first() =~= headers_encs(rest));
        lemma_subrange_join(s, pos, p, q);
    }
}

/// A schema stands in `s` at `pos` with every length in the shortest form.
pub open spec fn canonical_schema(s: Seq<u8>, pos: int) -> bool {
    canonical_header(s, pos) && spec_parse_schema(s, pos) is Ok
}

/// A schema in that form is what the writer gives for it.
pub proof fn lemma_canonical_schema(s: Seq<u8>, pos: int, tree: Seq<PropertyModel>, q: int)
    requires
        canonical_schema(s, pos),
        spec_parse_schema(s, pos) == Ok::<(Seq<PropertyModel>, int), Error>((tree, q)),
    ensures
        0 <= pos < q <= s.len(),
        s.subrange(pos, q) == schema_bytes(tree),
{
    let (h, p) = spec_parse_header(s, pos).unwrap();
    lemma_canonical_header(s, pos, h, p);
    lemma_tree_of(h);
}

/// Integers that were read one after the other are what the writer gives
/// for them: a fixed-width integer has one form only.
pub proof fn lemma_ints_exact(s: Seq<u8>, pos: int, w: int, signed: bool, n: nat, xs: Seq<int>, q: int)
    requires
        is_width(w),
        0 <= pos <= s.len(),
        parse_n(int_item(w, signed), s, pos, n) == Ok::<(Seq<int>, int), Error>((xs, q)),
    ensures
        pos <= q <= s.len(),
        s.subrange(pos, q) == concat(ints_encs(xs, w, signed)),
    decreases n,
{
    lemma_parsed_ints(s, pos, w, signed, n, xs, q);
    if n == 0 {
        assert(ints_encs(xs, w, signed) =~= Seq::<Seq<u8>>::empty());
        lemma_concat_take(ints_encs(xs, w, signed), 0);
        assert(ints_encs(xs, w, signed).take(0) =~= ints_encs(xs, w, signed));
        assert(s.subrange(pos, q) =~= Seq::<u8>::empty());
    } else {
        let (x, p) = spec_parse_int(s, pos, w, signed).unwrap();
        let (rest, r) = parse_n(int_item(w, signed), s, p, (n - 1) as nat).unwrap();
        lemma_ints_exact(s, p, w, signed, (n - 1) as nat, rest, r);
        lemma_int_bytes_at(s, pos, w, signed);
        assert(xs =~= seq![x] + rest);
        let e = ints_encs(xs, w, signed);
        lemma_concat_first(e);
        assert(e.drop_first() =~= ints_encs(rest, w, signed));
        lemma_subrange_join(s, pos, p, q);
    }
}

/// A value of the type of `prop` stands in `s` at `pos` with every count
/// in the shortest form, at every depth.
pub open spec fn canonical_value(s: Seq<u8>, pos: int, prop: PropertyModel) -> bool
    decreases prop, 0nat, 0nat,
{
    if is_scalar_tag(prop.tag) {
        spec_parse_value(s, pos, prop) is Ok
    } else if is_list_tag(prop.tag) {
        canonical_gamma(s, pos) && spec_parse_value(s, pos, prop) is Ok
    } else if prop.tag == SleType::Str {
        canonical_text(s, pos)
    } else {
        canonical_gamma(s, pos) && match spec_parse_gamma(s, pos) {
            Err(_) => false,
            Ok((n, q)) => canonical_rows(s, q, prop.sub, n as nat),
        }
    }
}

/// `n` rows of a nested struct stand in `s` one after the other from `pos`
/// on, with every count in the shortest form.
pub open spec fn canonical_rows(s: Seq<u8>, pos: int, schema: Seq<PropertyModel>, n: nat) -> bool
    decreases schema, 1nat, n,
{
    if n == 0 {
        true
    } else {
        canonical_fields(s, pos, schema, 0) && match spec_parse_fields(s, pos, schema, 0) {
            Err(_) => false,
            Ok((_, q)) => canonical_rows(s, q, schema, (n - 1) as nat),
        }
    }
}

/// The fields of a row, from the `i`-th property of `schema` on, stand in
/// `s` at `pos` with every count in the shortest form.
pub open spec fn canonical_fields(s: Seq<u8>, pos: int, schema: Seq<PropertyModel>, i: int) -> bool
    decreases schema, 0nat, schema.len() - i,
{
    if i < 0 || i >= schema.len() {
        true
    } else {
        canonical_value(s, pos, schema[i]) && match spec_parse_value(s, pos, schema[i]) {
            Err(_) => false,
            Ok((_, q)) => canonical_fields(s, q, schema, i + 1),
        }
    }
}

/// A value in that form is what the writer gives for it.
pub proof fn lemma_canonical_value(s: Seq<u8>, pos: int, prop: PropertyModel, v: ValueModel, q: int)
    requires
        canonical_value(s, pos, prop),
        spec_parse_value(s, pos, prop) == Ok::<(ValueModel, int), Error>((v, q)),
    ensures
        0 <= pos <= q <= s.len(),
        s.subrange(pos, q) == value_bytes(v),
    decreases prop, 0nat, 0nat,
{
    lemma_parsed_value(s, pos, prop, v, q);
    if is_scalar_tag(prop.tag) {
        lemma_tag_width(prop.tag);
        lemma_int_bytes_at(s, pos, tag_width(prop.tag), tag_signed(prop.tag));
    } else if is_list_tag(prop.tag) {
        lemma_tag_width(prop.tag);
        let (n, p) = spec_parse_gamma(s, pos).unwrap();
        lemma_parsed_gamma(s, pos, n, p);
        let w = tag_width(prop.tag);
        let (xs, r) = parse_n(int_item(w, tag_signed(prop.tag)), s, p, n as nat).unwrap();
        lemma_parsed_ints(s, p, w, tag_signed(prop.tag), n as nat, xs, r);
        lemma_ints_exact(s, p, w, tag_signed(prop.tag), n as nat, xs, r);
        lemma_subrange_join(s, pos, p, q);
    } else if prop.tag == SleType::Str {
        let (t, r) = spec_parse_text(s, pos).unwrap();
        lemma_canonical_text(s, pos, t, r);
    } else {
        let (n, p) = spec_parse_gamma(s, pos).unwrap();
        lemma_parsed_gamma(s, pos, n, p);
        let (rows, r) = spec_parse_rows(s, p, prop.sub, n as nat).unwrap();
        lemma_parsed_rows(s, p, prop.sub, n as nat, rows, r);
        lemma_canonical_rows(s, p, prop.sub, n as nat, rows, r);
        lemma_subrange_join(s, pos, p, q);
    }
}

/// Rows of a nested struct in that form are what the writer gives for
/// them.
pub proof fn lemma_canonical_rows(
    s: Seq<u8>,
    pos: int,
    schema: Seq<PropertyModel>,
    n: nat,
    rows: Seq<Seq<FieldModel>>,
    q: int,
)
    requires
        0 <= pos <= s.len(),
        canonical_rows(s, pos, schema, n),
        spec_parse_rows(s, pos, schema, n) == Ok::<(Seq<Seq<FieldModel>>, int), Error>(
            (rows, q),
        ),
    ensures
        pos <= q <= s.len(),
        s.subrange(pos, q) == concat(rows_encs(rows)),
    decreases schema, 1nat, n,
{
    if n == 0 {
        assert(rows_encs(rows) =~= Seq::<Seq<u8>>::empty());
        lemma_concat_take(rows_encs(rows), 0);
        assert(rows_encs(rows).take(0) =~= rows_encs(rows));
        assert(s.subrange(pos, q) =~= Seq::<u8>::empty());
    } else {
        let (row, p) = spec_parse_fields(s, pos, schema, 0).unwrap();
        lemma_canonical_fields(s, pos, schema, 0, row, p);
        let (rest, r) = spec_parse_rows(s, p, schema, (n - 1) as nat).unwrap();
        lemma_canonical_rows(s, p, schema, (n - 1) as nat, rest, r);
        assert(rows =~= seq![row] + rest);
        let e = rows_encs(rows);
        lemma_concat_first(e);
        assert(e.drop_first() =~= rows_encs(rest));
        assert(row.skip(0) =~= row);
        lemma_subrange_join(s, pos, p, q);
    }
}

/// Fields in that form are what the writer gives for them.
pub proof fn lemma_canonical_fields(
    s: Seq<u8>,
    pos: int,
    schema: Seq<PropertyModel>,
    i: int,
    fields: Seq<FieldModel>,
    q: int,
)
    requires
        0 <= pos <= s.len(),
        0 <= i <= schema.len(),
        canonical_fields(s, pos, schema, i),
        spec_parse_fields(s, pos, schema, i) == Ok::<(Seq<FieldModel>, int), Error>(
            (fields, q),
        ),
    ensures
        pos <= q <= s.len(),
        s.subrange(pos, q) == concat(fields_encs(fields)),
        i == 0 ==> s.subrange(pos, q) == fields_bytes(fields),
    decreases schema, 0nat, schema.len() - i,
{
    if i >= schema.len() {
        assert(fields_encs(fields) =~= Seq::<Seq<u8>>::empty());
        lemma_concat_take(fields_encs(fields), 0);
        assert(fields_encs(fields).take(0) =~= fields_encs(fields));
        assert(s.subrange(pos, q) =~= Seq::<u8>::empty());
    } else {
        let (v, p) = spec_parse_value(s, pos, schema[i]).unwrap();
        lemma_canonical_value(s, pos, schema[i], v, p);
        let (rest, r) = spec_parse_fields(s, p, schema, i + 1).unwrap();
        lemma_canonical_fields(s, p, schema, i + 1, rest, r);
        assert(fields =~= seq![(schema[i].key, v)] + rest);
        let e = fields_encs(fields);
        lemma_concat_first(e);
        assert(e.drop_first() =~= fields_encs(rest));
        lemma_subrange_join(s, pos, p, q);
    }
}

/// What follows the size of a row stands in `s` at `pos` with every count
/// in the shortest form.
pub open spec fn canonical_row_body(s: Seq<u8>, pos: int, schema: Seq<PropertyModel>, size: u32) -> bool {
    size > 1 ==> canonical_fields(s, pos, schema, 0)
}

/// A row of a table stands in `s` at `pos` with its size and every count
/// in the shortest form.
pub open spec fn canonical_row(s: Seq<u8>, pos: int, schema: Seq<PropertyModel>) -> bool {
    &&& canonical_gamma(s, pos)
    &&& spec_parse_row(s, pos, schema) is Ok
    &&& match spec_parse_gamma(s, pos) {
        Err(_) => false,
        Ok((size, q)) => canonical_row_body(s, q, schema, size),
    }
}

/// A row of a sparse table stands in `s` at `pos` with its size, its index
/// and every count in the shortest form.
pub open spec fn canonical_sparse_row(s: Seq<u8>, pos: int, schema: Seq<PropertyModel>) -> bool {
    &&& canonical_gamma(s, pos)
    &&& spec_parse_sparse_row(s, pos, schema) is Ok
    &&& match spec_parse_gamma(s, pos) {
        Err(_) => false,
        Ok((size, q)) => canonical_gamma(s, q) && match spec_parse_gamma(s, q) {
            Err(_) => false,
            Ok((_, r)) => canonical_row_body(s, r, schema, size),
        },
    }
}

/// What follows the size of a row, in that form, is the fields and the
/// leftover as the writer gives them.
proof fn lemma_canonical_row_body(
    s: Seq<u8>,
    pos: int,
    schema: Seq<PropertyModel>,
    size: u32,
    taken: int,
    row: RowModel,
    q: int,
)
    requires
        0 <= pos <= s.len(),
        size >= 1,
        taken >= 0,
        canonical_row_body(s, pos, schema, size),
        spec_parse_row_body(s, pos, schema, size, taken) == Ok::<(RowModel, int), Error>(
            (row, q),
        ),
    ensures
        pos <= q <= s.len(),
        s.subrange(pos, q) == fields_bytes(row.fields) + row.leftover,
        size == 1 + taken + fields_len(row.fields) + row.leftover.len(),
{
    if size > 1 {
        let (fields, r) = spec_parse_fields(s, pos, schema, 0).unwrap();
        lemma_parsed_fields(s, pos, schema, 0, fields, r);
        lemma_canonical_fields(s, pos, schema, 0, fields, r);
        lemma_subrange_join(s, pos, r, q);
    } else {
        assert(fields_lens(row.fields) =~= Seq::<nat>::empty());
        assert(fields_encs(row.fields) =~= Seq::<Seq<u8>>::empty());
        lemma_concat_take(fields_encs(row.fields), 0);
        assert(fields_encs(row.fields).take(0) =~= fields_encs(row.fields));
        assert(s.subrange(pos, q) =~= fields_bytes(row.fields) + row.leftover);
    }
}

/// A row of a table in that form is what the writer gives for it.
pub proof fn lemma_canonical_row(s: Seq<u8>, pos: int, schema: Seq<PropertyModel>, row: RowModel, q: int)
    requires
        canonical_row(s, pos, schema),
        spec_parse_row(s, pos, schema) == Ok::<(RowModel, int), Error>((row, q)),
    ensures
        0 <= pos <= q <= s.len(),
        s.subrange(pos, q) == row_bytes(row),
{
    let (size, p) = spec_parse_gamma(s, pos).unwrap();
    lemma_parsed_gamma(s, pos, size, p);
    lemma_canonical_row_body(s, p, schema, size, 0, row, q);
    lemma_subrange_join(s, pos, p, q);
    assert(row_bytes(row) =~= gamma_bytes(size) + (fields_bytes(row.fields) + row.leftover));
}

/// A row of a sparse table in that form is what the writer gives for it.
pub proof fn lemma_canonical_sparse_row(
    s: Seq<u8>,
    pos: int,
    schema: Seq<PropertyModel>,
    row: SparseRowModel,
    q: int,
)
    requires
        canonical_sparse_row(s, pos, schema),
        spec_parse_sparse_row(s, pos, schema) == Ok::<(SparseRowModel, int), Error>((row, q)),
    ensures
        0 <= pos <= q <= s.len(),
        s.subrange(pos, q) == sparse_row_bytes(row),
{
    let (size, p) = spec_parse_gamma(s, pos).unwrap();
    lemma_parsed_gamma(s, pos, size, p);
    let (index, r) = spec_parse_gamma(s, p).unwrap();
    lemma_parsed_gamma(s, p, index, r);
    let taken = spec_gamma_length(index) as int;
    let (plain, t) = spec_parse_row_body(s, r, schema, size, taken).unwrap();
    lemma_canonical_row_body(s, r, schema, size, taken, plain, t);
    lemma_subrange_join(s, p, r, q);
    lemma_subrange_join(s, pos, p, q);
    assert(sparse_row_bytes(row) =~= gamma_bytes(size) + (gamma_bytes(index) + (fields_bytes(
        row.fields,
    ) + row.leftover)));
}

/// Where the shortest form of a number stands, a gamma stands in the form
/// that the writer gives.
pub proof fn lemma_written_gamma(s: Seq<u8>, pos: int, u: u32)
    requires
        has_at(s, pos, gamma_bytes(u)),
    ensures
        canonical_gamma(s, pos),
        spec_parse_gamma(s, pos) == Ok::<(u32, int), Error>((u, pos + spec_gamma_length(u))),
{
    lemma_gamma_parse_at(s, pos, u);
    lemma_gamma_bytes_len(u);
}

/// Where the wire form of a string stands, a string stands in the form
/// that the writer gives.
pub proof fn lemma_written_text(s: Seq<u8>, pos: int, t: Seq<u8>)
    requires
        t.len() <= u32::MAX,
        has_at(s, pos, text_bytes(t)),
    ensures
        canonical_text(s, pos),
{
    lemma_has_at_split(s, pos, gamma_bytes(t.len() as u32), t);
    lemma_written_gamma(s, pos, t.len() as u32);
    lemma_text_round_trip(s, pos, t);
}

/// Where the wire form of a wire layout stands, a wire layout stands in
/// the form that the writer gives.
pub proof fn lemma_written_header(h: HeaderModel, s: Seq<u8>, pos: int)
    requires
        header_writable(h),
        header_counts_ok(h),
        has_at(s, pos, header_bytes(h)),
    ensures
        canonical_header(s, pos),
    decreases h,
{
    lemma_header_round_trip(h, s, pos);
    lemma_header_bytes_len(h);
    let a = concat(props_encs(h.props));
    let b = concat(headers_encs(h.subs));
    lemma_has_at_split(s, pos, a + seq![0u8], b);
    let encs = props_encs(h.props);
    assert forall|i: int| 0 <= i < encs.len() implies (#[trigger] encs[i]).len() > 0 && encs[i][0]
        != 0 by {
        lemma_tag_byte(h.props[i].tag);
    }
    assert forall|i: int, p: int|
        0 <= i < h.props.len() && #[trigger] has_at(
            s,
            p,
            encs[i],
        ) implies prop_item()(s, p) == Ok::<(WireProperty, int), Error>(
        (h.props[i], p + encs[i].len()),
    ) && prop_canon()(s, p) by {
        lemma_prop_round_trip(s, p, h.props[i]);
        lemma_has_at_split(
            s,
            p,
            seq![tag_byte(h.props[i].tag)],
            text_bytes(h.props[i].key),
        );
        lemma_written_text(s, p + 1, h.props[i].key);
    }
    lemma_until_zero_round_trip(prop_item(), h.props, encs, s, pos);
    lemma_until_zero_all(prop_item(), prop_canon(), h.props, encs, s, pos);
    let q = pos + a.len() + 1;
    let subs = headers_encs(h.subs);
    assert forall|k: int, p: int|
        0 <= k < h.subs.len() && #[trigger] has_at(
            s,
            p,
            subs[k],
        ) implies spec_parse_header(s, p) == Ok::<(HeaderModel, int), Error>(
        (h.subs[k], p + subs[k].len()),
    ) && canonical_header(s, p) by {
        lemma_header_round_trip(h.subs[k], s, p);
        lemma_header_bytes_len(h.subs[k]);
        lemma_written_header(h.subs[k], s, p);
    }
    lemma_written_headers(h.subs, subs, s, q);
}

/// Where wire layouts stand one after the other, each read back and in
/// the form that the writer gives wherever it stands, they stand in that
/// form together.
proof fn lemma_written_headers(hs: Seq<HeaderModel>, enc: Seq<Seq<u8>>, s: Seq<u8>, pos: int)
    requires
        enc.len() == hs.len(),
        has_at(s, pos, concat(enc)),
        forall|k: int, p: int|
            0 <= k < hs.len() && #[trigger] has_at(s, p, enc[k]) ==> spec_parse_header(
                s,
                p,
            ) == Ok::<(HeaderModel, int), Error>((hs[k], p + enc[k].len())) && canonical_header(
                s,
                p,
            ),
    ensures
        canonical_headers(s, pos, hs.len()),
    decreases hs.len(),
{
    if hs.len() > 0 {
        lemma_concat_first(enc);
        lemma_has_at_split(s, pos, enc[0], concat(enc.drop_first()));
        assert(has_at(s, pos, enc[0]));
        let q = pos + enc[0].len();
        let hs1 = hs.drop_first();
        let enc1 = enc.drop_first();
        assert forall|k: int, p: int|
            0 <= k < hs1.len() && #[trigger] has_at(
                s,
                p,
                enc1[k],
            ) implies spec_parse_header(s, p) == Ok::<(HeaderModel, int), Error>(
            (hs1[k], p + enc1[k].len()),
        ) && canonical_header(s, p) by {
            assert(enc1[k] == enc[k + 1]);
            assert(has_at(s, p, enc[k + 1]));
        }
        lemma_written_headers(hs1, enc1, s, q);
    }
}

/// Where the wire form of a well-formed schema stands, a schema stands in
/// the form that the writer gives.
pub proof fn lemma_written_schema(tree: Seq<PropertyModel>, s: Seq<u8>, pos: int)
    requires
        schema_ok(tree),
        has_at(s, pos, schema_bytes(tree)),
    ensures
        canonical_schema(s, pos),
{
    lemma_header_of(tree);
    lemma_schema_round_trip(tree, s, pos);
    lemma_written_header(header_of(tree), s, pos);
}

/// Where the wire form of a value stands, a value of the type of `prop`
/// stands in the form that the writer gives, provided the value is of that
/// type and all its counts fit 32 bits.
pub proof fn lemma_written_value(v: ValueModel, prop: PropertyModel, s: Seq<u8>, pos: int)
    requires
        value_fits(v, prop),
        value_writable(v),
        has_at(s, pos, value_bytes(v)),
    ensures
        canonical_value(s, pos, prop),
    decreases prop, 0nat,
{
    lemma_value_round_trip(v, prop, s, pos);
    match v {
        ValueModel::Int(t, x) => {},
        ValueModel::List(t, xs) => {
            let w = tag_width(t);
            lemma_has_at_split(
                s,
                pos,
                gamma_bytes(xs.len() as u32),
                concat(ints_encs(xs, w, tag_signed(t))),
            );
            lemma_written_gamma(s, pos, xs.len() as u32);
        },
        ValueModel::Str(b) => {
            lemma_written_text(s, pos, b);
        },
        ValueModel::Rows(rows) => {
            let g = gamma_bytes(rows.len() as u32);
            let enc = rows_encs(rows);
            lemma_has_at_split(s, pos, g, concat(enc));
            lemma_written_gamma(s, pos, rows.len() as u32);
            let q = pos + spec_gamma_length(rows.len() as u32);
            assert(rows_fit(rows, prop.sub));
            assert(rows_writable(rows));
            assert forall|i: int, p: int|
                0 <= i < rows.len() && #[trigger] has_at(
                    s,
                    p,
                    enc[i],
                ) implies spec_parse_fields(s, p, prop.sub, 0) == Ok::<
                (Seq<FieldModel>, int),
                Error,
            >((rows[i], p + enc[i].len())) && canonical_fields(s, p, prop.sub, 0) by {
                assert(fields_fit(rows[i], prop.sub));
                assert(fields_writable(rows[i]));
                lemma_fields_round_trip(rows[i], prop.sub, s, p);
                lemma_written_fields(rows[i], prop.sub, s, p);
            }
            lemma_written_rows(rows, enc, prop.sub, s, q);
        },
    }
}

/// Where rows of a nested struct stand one after the other, each read back
/// and in the form that the writer gives wherever it stands, they stand in
/// that form together.
proof fn lemma_written_rows(
    rows: Seq<Seq<FieldModel>>,
    enc: Seq<Seq<u8>>,
    schema: Seq<PropertyModel>,
    s: Seq<u8>,
    pos: int,
)
    requires
        enc.len() == rows.len(),
        has_at(s, pos, concat(enc)),
        forall|i: int, p: int|
            0 <= i < rows.len() && #[trigger] has_at(s, p, enc[i]) ==> spec_parse_fields(
                s,
                p,
                schema,
                0,
            ) == Ok::<(Seq<FieldModel>, int), Error>((rows[i], p + enc[i].len()))
                && canonical_fields(s, p, schema, 0),
    ensures
        canonical_rows(s, pos, schema, rows.len()),
    decreases rows.len(),
{
    if rows.len() > 0 {
        lemma_concat_first(enc);
        lemma_has_at_split(s, pos, enc[0], concat(enc.drop_first()));
        assert(has_at(s, pos, enc[0]));
        let q = pos + enc[0].len();
        let rows1 = rows.drop_first();
        let enc1 = enc.drop_first();
        assert forall|i: int, p: int|
            0 <= i < rows1.len() && #[trigger] has_at(
                s,
                p,
                enc1[i],
            ) implies spec_parse_fields(s, p, schema, 0) == Ok::<(Seq<FieldModel>, int), Error>(
            (rows1[i], p + enc1[i].len()),
        ) && canonical_fields(s, p, schema, 0) by {
            assert(enc1[i] == enc[i + 1]);
            assert(has_at(s, p, enc[i + 1]));
        }
        lemma_written_rows(rows1, enc1, schema, s, q);
    }
}

/// Where the wire form of the fields of a row stands, the fields that
/// `schema` names stand in the form that the writer gives.
pub proof fn lemma_written_fields(
    fields: Seq<FieldModel>,
    schema: Seq<PropertyModel>,
    s: Seq<u8>,
    pos: int,
)
    requires
        fields_fit(fields, schema),
        fields_writable(fields),
        has_at(s, pos, fields_bytes(fields)),
    ensures
        canonical_fields(s, pos, schema, 0),
    decreases schema, 1nat,
{
    let enc = fields_encs(fields);
    lemma_fields_bytes_len(fields, schema);
    assert(enc.skip(0) =~= enc);
    assert forall|j: int, p: int|
        0 <= j < fields.len() && #[trigger] has_at(
            s,
            p,
            enc[j],
        ) implies spec_parse_value(s, p, schema[j]) == Ok::<(ValueModel, int), Error>(
        (fields[j].1, p + enc[j].len()),
    ) && canonical_value(s, p, schema[j]) by {
        assert(fields[j].0 == schema[j].key && value_fits(
            fields[j].1,
            schema[j],
        ));
        assert(value_writable(fields[j].1));
        lemma_value_round_trip(fields[j].1, schema[j], s, p);
        lemma_value_bytes_len(fields[j].1, schema[j]);
        lemma_written_value(fields[j].1, schema[j], s, p);
    }
    lemma_written_fields_from(fields, enc, schema, s, pos, 0);
}

/// The same from the `i`-th field on, given that each value is read back
/// and in the form that the writer gives wherever it stands.
proof fn lemma_written_fields_from(
    fields: Seq<FieldModel>,
    enc: Seq<Seq<u8>>,
    schema: Seq<PropertyModel>,
    s: Seq<u8>,
    pos: int,
    i: int,
)
    requires
        enc.len() == fields.len(),
        fields.len() == schema.len(),
        0 <= i <= fields.len(),
        has_at(s, pos, concat(enc.skip(i))),
        forall|j: int, p: int|
            0 <= j < fields.len() && #[trigger] has_at(s, p, enc[j]) ==> spec_parse_value(
                s,
                p,
                schema[j],
            ) == Ok::<(ValueModel, int), Error>((fields[j].1, p + enc[j].len()))
                && canonical_value(s, p, schema[j]),
    ensures
        canonical_fields(s, pos, schema, i),
    decreases fields.len() - i,
{
    if i < fields.len() {
        let e = enc.skip(i);
        lemma_concat_first(e);
        assert(e[0] == enc[i]);
        assert(e.drop_first() =~= enc.skip(i + 1));
        lemma_has_at_split(s, pos, enc[i], concat(enc.skip(i + 1)));
        assert(has_at(s, pos, enc[i]));
        lemma_written_fields_from(fields, enc, schema, s, pos + enc[i].len(), i + 1);
    }
}

/// Where the wire form of a row stands, a row of this schema stands in the
/// form that the writer gives, provided the row belongs to the schema and
/// can be written.
pub proof fn lemma_written_row(row: RowModel, schema: Seq<PropertyModel>, s: Seq<u8>, pos: int)
    requires
        row_fits(row, schema),
        row_writable(row),
        has_at(s, pos, row_bytes(row)),
    ensures
        canonical_row(s, pos, schema),
{
    lemma_row_round_trip(row, schema, s, pos);
    let size = row_size(row) as u32;
    let body = fields_bytes(row.fields) + row.leftover;
    assert(row_bytes(row) =~= gamma_bytes(size) + body);
    lemma_has_at_split(s, pos, gamma_bytes(size), body);
    lemma_written_gamma(s, pos, size);
    let q = pos + spec_gamma_length(size);
    lemma_has_at_split(s, q, fields_bytes(row.fields), row.leftover);
    if size > 1 {
        if fields_fit(row.fields, schema) {
            lemma_written_fields(row.fields, schema, s, q);
        } else {
            assert(fields_lens(row.fields) =~= Seq::<nat>::empty());
        }
    }
}

/// Where the wire form of a sparse row stands, a sparse row of this schema
/// stands in the form that the writer gives, provided the row has the
/// fields that the schema names and can be written.
pub proof fn lemma_written_sparse_row(
    row: SparseRowModel,
    schema: Seq<PropertyModel>,
    s: Seq<u8>,
    pos: int,
)
    requires
        fields_fit(row.fields, schema),
        sparse_row_writable(row),
        has_at(s, pos, sparse_row_bytes(row)),
    ensures
        canonical_sparse_row(s, pos, schema),
{
    lemma_sparse_row_round_trip(row, schema, s, pos);
    let size = sparse_row_size(row) as u32;
    let gi = gamma_bytes(row.index);
    let body = fields_bytes(row.fields) + row.leftover;
    assert(sparse_row_bytes(row) =~= gamma_bytes(size) + (gi + body));
    lemma_has_at_split(s, pos, gamma_bytes(size), gi + body);
    lemma_written_gamma(s, pos, size);
    let q = pos + spec_gamma_length(size);
    lemma_has_at_split(s, q, gi, body);
    lemma_written_gamma(s, q, row.index);
    let r = q + spec_gamma_length(row.index);
    lemma_has_at_split(s, r, fields_bytes(row.fields), row.leftover);
    lemma_written_fields(row.fields, schema, s, r);
}

} // verus!
