use crate::chtable::canonical::{
    canonical_row, canonical_sparse_row, lemma_canonical_row, lemma_canonical_sparse_row,
    lemma_written_row, lemma_written_sparse_row,
};
use crate::chtable::property::{PropertyModel, TableHeaderProperty};
use crate::chtable::row::{
    ChSparseTableElement, ChTableElement, row_bytes, row_writable, sparse_row_bytes,
    sparse_row_writable, spec_check_row, spec_check_sparse_row, spec_parse_row,
    spec_parse_sparse_row,
};
use crate::chtable::row_laws::{
    lemma_parsed_row, lemma_parsed_sparse_row, lemma_row_round_trip, lemma_sparse_row_round_trip,
};
use crate::error::{agrees, Error};
use crate::repeat::{
    all_until_zero, concat, encs_of, first_error, lemma_concat_take, lemma_first_error,
    lemma_until_zero_all, lemma_until_zero_exact, lemma_until_zero_round_trip, lemma_views_empty, lemma_views_push,
    lemma_with_prefix_done, lemma_with_prefix_push, parse_until_zero, views, with_prefix,
};
use crate::save::array::{
    array_row_bytes, array_row_writable, canonical_array_row, canonical_sparse_array_row,
    ChArrayElement, ChSparseArrayElement, lemma_array_row_round_trip, lemma_canonical_array_row,
    lemma_canonical_sparse_array_row, lemma_parsed_array_row, lemma_parsed_sparse_array_row,
    lemma_sparse_array_row_round_trip, lemma_written_array_row, lemma_written_sparse_array_row,
    sparse_array_row_bytes, sparse_array_row_writable, spec_parse_array_row,
    spec_parse_sparse_array_row,
};
use crate::wire::has_at;
use vstd::prelude::*;

verus! {

/// A row of a chunk: something that is read, checked and written one after
/// the other until a zero byte ends the list. The rows of tables are read
/// and checked against the schema of their chunk; the rows of arrays do not
/// look at it.
pub trait Row: View + Sized {
    /// Reading one row from `s` at `pos`.
    spec fn spec_read(s: Seq<u8>, pos: int, schema: Seq<PropertyModel>) -> Result<
        (Self::V, int),
        Error,
    >;

    /// The wire form of a row.
    spec fn spec_bytes(m: Self::V) -> Seq<u8>;

    /// Whether a row can be written into a chunk of this schema, and if not,
    /// why.
    spec fn spec_check(m: Self::V, schema: Seq<PropertyModel>) -> Result<(), Error>;

    /// Every count and size in the row fits 32 bits.
    spec fn spec_writable(m: Self::V) -> bool;

    /// A row that can be written into a chunk is read back from its wire
    /// form wherever it stands; the wire form does not start with a zero
    /// byte.
    proof fn lemma_round_trip(m: Self::V, schema: Seq<PropertyModel>, s: Seq<u8>, pos: int)
        requires
            Self::spec_check(m, schema) is Ok,
            has_at(s, pos, Self::spec_bytes(m)),
        ensures
            Self::spec_read(s, pos, schema) == Ok::<(Self::V, int), Error>(
                (m, pos + Self::spec_bytes(m).len()),
            ),
            Self::spec_bytes(m).len() > 0,
            Self::spec_bytes(m)[0] != 0,
    ;

    /// A row that was read can be written into a chunk of the schema it was
    /// read against, and it stands inside the input.
    proof fn lemma_parsed(s: Seq<u8>, pos: int, schema: Seq<PropertyModel>, m: Self::V, q: int)
        requires
            Self::spec_read(s, pos, schema) == Ok::<(Self::V, int), Error>((m, q)),
        ensures
            Self::spec_check(m, schema) is Ok,
            0 <= pos < q <= s.len(),
    ;

    /// A row stands in `s` at `pos` with every size and count in the
    /// shortest form and as the writer computes it.
    spec fn spec_canonical(s: Seq<u8>, pos: int, schema: Seq<PropertyModel>) -> bool;

    /// A row in that form is read.
    proof fn lemma_canonical_ok(s: Seq<u8>, pos: int, schema: Seq<PropertyModel>)
        requires
            Self::spec_canonical(s, pos, schema),
        ensures
            Self::spec_read(s, pos, schema) is Ok,
    ;

    /// A row in that form is what the writer gives for it.
    proof fn lemma_canonical(s: Seq<u8>, pos: int, schema: Seq<PropertyModel>, m: Self::V, q: int)
        requires
            Self::spec_canonical(s, pos, schema),
            Self::spec_read(s, pos, schema) == Ok::<(Self::V, int), Error>((m, q)),
        ensures
            0 <= pos <= q <= s.len(),
            s.subrange(pos, q) == Self::spec_bytes(m),
    ;

    /// Where the wire form of a row that can be written stands, a row
    /// stands in the form that the writer gives.
    proof fn lemma_written(m: Self::V, schema: Seq<PropertyModel>, s: Seq<u8>, pos: int)
        requires
            Self::spec_check(m, schema) is Ok,
            has_at(s, pos, Self::spec_bytes(m)),
        ensures
            Self::spec_canonical(s, pos, schema),
    ;

    /// A row that passes the check can be written.
    proof fn lemma_checked(m: Self::V, schema: Seq<PropertyModel>)
        requires
            Self::spec_check(m, schema) is Ok,
        ensures
            Self::spec_writable(m),
    ;

    /// Reads one row from `data` at `pos`.
    fn read_row(data: &[u8], pos: usize, schema: &Vec<TableHeaderProperty>) -> (res: Result<
        (Self, usize),
        Error,
    >)
        ensures
            agrees(res, Self::spec_read(data@, pos as int, views(schema@))),
            res matches Ok((_, p)) ==> pos < p <= data.len(),
    ;

    /// Whether the row can be written into a chunk of this schema.
    fn check_row(&self, schema: &Vec<TableHeaderProperty>) -> (res: Result<(), Error>)
        ensures
            res == Self::spec_check(self@, views(schema@)),
    ;

    /// Appends the wire form of the row to `out`.
    fn write_row(&self, out: &mut Vec<u8>)
        requires
            Self::spec_writable(self@),
        ensures
            final(out)@ == old(out)@ + Self::spec_bytes(self@),
    ;
}

impl Row for ChArrayElement {
    open spec fn spec_read(s: Seq<u8>, pos: int, schema: Seq<PropertyModel>) -> Result<
        (Seq<u8>, int),
        Error,
    > {
        spec_parse_array_row(s, pos)
    }

    open spec fn spec_bytes(m: Seq<u8>) -> Seq<u8> {
        array_row_bytes(m)
    }

    open spec fn spec_check(m: Seq<u8>, schema: Seq<PropertyModel>) -> Result<(), Error> {
        if array_row_writable(m) {
            Ok(())
        } else {
            Err(Error::IntegerOverflow)
        }
    }

    open spec fn spec_writable(m: Seq<u8>) -> bool {
        array_row_writable(m)
    }

    proof fn lemma_round_trip(m: Seq<u8>, schema: Seq<PropertyModel>, s: Seq<u8>, pos: int) {
        lemma_array_row_round_trip(m, s, pos);
    }

    proof fn lemma_parsed(s: Seq<u8>, pos: int, schema: Seq<PropertyModel>, m: Seq<u8>, q: int) {
        lemma_parsed_array_row(s, pos, m, q);
    }

    open spec fn spec_canonical(s: Seq<u8>, pos: int, schema: Seq<PropertyModel>) -> bool {
        canonical_array_row(s, pos)
    }

    proof fn lemma_canonical_ok(s: Seq<u8>, pos: int, schema: Seq<PropertyModel>) {
    }

    proof fn lemma_canonical(s: Seq<u8>, pos: int, schema: Seq<PropertyModel>, m: Seq<u8>, q: int) {
        lemma_canonical_array_row(s, pos, m, q);
    }

    proof fn lemma_written(m: Seq<u8>, schema: Seq<PropertyModel>, s: Seq<u8>, pos: int) {
        lemma_written_array_row(m, s, pos);
    }

    proof fn lemma_checked(m: Seq<u8>, schema: Seq<PropertyModel>) {
    }

    fn read_row(data: &[u8], pos: usize, schema: &Vec<TableHeaderProperty>) -> (res: Result<
        (Self, usize),
        Error,
    >) {
        ChArrayElement::read(data, pos)
    }

    fn check_row(&self, schema: &Vec<TableHeaderProperty>) -> (res: Result<(), Error>) {
        self.check()
    }

    fn write_row(&self, out: &mut Vec<u8>) {
        self.write(out)
    }
}

impl Row for ChSparseArrayElement {
    open spec fn spec_read(s: Seq<u8>, pos: int, schema: Seq<PropertyModel>) -> Result<
        (Self::V, int),
        Error,
    > {
        spec_parse_sparse_array_row(s, pos)
    }

    open spec fn spec_bytes(m: Self::V) -> Seq<u8> {
        sparse_array_row_bytes(m)
    }

    open spec fn spec_check(m: Self::V, schema: Seq<PropertyModel>) -> Result<(), Error> {
        if sparse_array_row_writable(m) {
            Ok(())
        } else {
            Err(Error::IntegerOverflow)
        }
    }

    open spec fn spec_writable(m: Self::V) -> bool {
        sparse_array_row_writable(m)
    }

    proof fn lemma_round_trip(m: Self::V, schema: Seq<PropertyModel>, s: Seq<u8>, pos: int) {
        lemma_sparse_array_row_round_trip(m, s, pos);
    }

    proof fn lemma_parsed(s: Seq<u8>, pos: int, schema: Seq<PropertyModel>, m: Self::V, q: int) {
        lemma_parsed_sparse_array_row(s, pos, m, q);
    }

    open spec fn spec_canonical(s: Seq<u8>, pos: int, schema: Seq<PropertyModel>) -> bool {
        canonical_sparse_array_row(s, pos)
    }

    proof fn lemma_canonical_ok(s: Seq<u8>, pos: int, schema: Seq<PropertyModel>) {
    }

    proof fn lemma_canonical(s: Seq<u8>, pos: int, schema: Seq<PropertyModel>, m: Self::V, q: int) {
        lemma_canonical_sparse_array_row(s, pos, m, q);
    }

    proof fn lemma_written(m: Self::V, schema: Seq<PropertyModel>, s: Seq<u8>, pos: int) {
        lemma_written_sparse_array_row(m, s, pos);
    }

    proof fn lemma_checked(m: Self::V, schema: Seq<PropertyModel>) {
    }

    fn read_row(data: &[u8], pos: usize, schema: &Vec<TableHeaderProperty>) -> (res: Result<
        (Self, usize),
        Error,
    >) {
        ChSparseArrayElement::read(data, pos)
    }

    fn check_row(&self, schema: &Vec<TableHeaderProperty>) -> (res: Result<(), Error>) {
        self.check()
    }

    fn write_row(&self, out: &mut Vec<u8>) {
        self.write(out)
    }
}

impl Row for ChTableElement {
    open spec fn spec_read(s: Seq<u8>, pos: int, schema: Seq<PropertyModel>) -> Result<
        (Self::V, int),
        Error,
    > {
        spec_parse_row(s, pos, schema)
    }

    open spec fn spec_bytes(m: Self::V) -> Seq<u8> {
        row_bytes(m)
    }

    open spec fn spec_check(m: Self::V, schema: Seq<PropertyModel>) -> Result<(), Error> {
        spec_check_row(m, schema)
    }

    open spec fn spec_writable(m: Self::V) -> bool {
        row_writable(m)
    }

    proof fn lemma_round_trip(m: Self::V, schema: Seq<PropertyModel>, s: Seq<u8>, pos: int) {
        lemma_row_round_trip(m, schema, s, pos);
    }

    proof fn lemma_parsed(s: Seq<u8>, pos: int, schema: Seq<PropertyModel>, m: Self::V, q: int) {
        lemma_parsed_row(s, pos, schema, m, q);
    }

    open spec fn spec_canonical(s: Seq<u8>, pos: int, schema: Seq<PropertyModel>) -> bool {
        canonical_row(s, pos, schema)
    }

    proof fn lemma_canonical_ok(s: Seq<u8>, pos: int, schema: Seq<PropertyModel>) {
    }

    proof fn lemma_canonical(s: Seq<u8>, pos: int, schema: Seq<PropertyModel>, m: Self::V, q: int) {
        lemma_canonical_row(s, pos, schema, m, q);
    }

    proof fn lemma_written(m: Self::V, schema: Seq<PropertyModel>, s: Seq<u8>, pos: int) {
        lemma_written_row(m, schema, s, pos);
    }

    proof fn lemma_checked(m: Self::V, schema: Seq<PropertyModel>) {
    }

    fn read_row(data: &[u8], pos: usize, schema: &Vec<TableHeaderProperty>) -> (res: Result<
        (Self, usize),
        Error,
    >) {
        ChTableElement::read(data, pos, schema)
    }

    fn check_row(&self, schema: &Vec<TableHeaderProperty>) -> (res: Result<(), Error>) {
        self.check(schema)
    }

    fn write_row(&self, out: &mut Vec<u8>) {
        self.write(out)
    }
}

impl Row for ChSparseTableElement {
    open spec fn spec_read(s: Seq<u8>, pos: int, schema: Seq<PropertyModel>) -> Result<
        (Self::V, int),
        Error,
    > {
        spec_parse_sparse_row(s, pos, schema)
    }

    open spec fn spec_bytes(m: Self::V) -> Seq<u8> {
        sparse_row_bytes(m)
    }

    open spec fn spec_check(m: Self::V, schema: Seq<PropertyModel>) -> Result<(), Error> {
        spec_check_sparse_row(m, schema)
    }

    open spec fn spec_writable(m: Self::V) -> bool {
        sparse_row_writable(m)
    }

    proof fn lemma_round_trip(m: Self::V, schema: Seq<PropertyModel>, s: Seq<u8>, pos: int) {
        lemma_sparse_row_round_trip(m, schema, s, pos);
    }

    proof fn lemma_parsed(s: Seq<u8>, pos: int, schema: Seq<PropertyModel>, m: Self::V, q: int) {
        lemma_parsed_sparse_row(s, pos, schema, m, q);
    }

    open spec fn spec_canonical(s: Seq<u8>, pos: int, schema: Seq<PropertyModel>) -> bool {
        canonical_sparse_row(s, pos, schema)
    }

    proof fn lemma_canonical_ok(s: Seq<u8>, pos: int, schema: Seq<PropertyModel>) {
    }

    proof fn lemma_canonical(s: Seq<u8>, pos: int, schema: Seq<PropertyModel>, m: Self::V, q: int) {
        lemma_canonical_sparse_row(s, pos, schema, m, q);
    }

    proof fn lemma_written(m: Self::V, schema: Seq<PropertyModel>, s: Seq<u8>, pos: int) {
        lemma_written_sparse_row(m, schema, s, pos);
    }

    proof fn lemma_checked(m: Self::V, schema: Seq<PropertyModel>) {
    }

    fn read_row(data: &[u8], pos: usize, schema: &Vec<TableHeaderProperty>) -> (res: Result<
        (Self, usize),
        Error,
    >) {
        ChSparseTableElement::read(data, pos, schema)
    }

    fn check_row(&self, schema: &Vec<TableHeaderProperty>) -> (res: Result<(), Error>) {
        self.check(schema)
    }

    fn write_row(&self, out: &mut Vec<u8>) {
        self.write(out)
    }
}

/// Reading one row against a schema, as a value.
pub open spec fn row_reader<R: Row>(schema: Seq<PropertyModel>) -> spec_fn(Seq<u8>, int) -> Result<
    (R::V, int),
    Error,
> {
    |s: Seq<u8>, pos: int| R::spec_read(s, pos, schema)
}

/// Reading the rows of a chunk from `s` at `pos`: rows until a zero byte
/// stands where the size of the next one would start.
pub open spec fn spec_read_rows<R: Row>(s: Seq<u8>, pos: int, schema: Seq<PropertyModel>) -> Result<
    (Seq<R::V>, int),
    Error,
> {
    parse_until_zero(row_reader::<R>(schema), s, pos)
}

/// The wire forms of the rows, each on its own.
pub open spec fn rows_encs<R: Row>(rows: Seq<R::V>) -> Seq<Seq<u8>> {
    Seq::new(rows.len(), |i: int| R::spec_bytes(rows[i]))
}

/// The wire form of the rows of a chunk: the rows, then a zero byte.
pub open spec fn rows_bytes<R: Row>(rows: Seq<R::V>) -> Seq<u8> {
    concat(rows_encs::<R>(rows)) + seq![0u8]
}

/// The outcomes of checking each row against the schema.
pub open spec fn rows_checks<R: Row>(rows: Seq<R::V>, schema: Seq<PropertyModel>) -> Seq<
    Result<(), Error>,
> {
    Seq::new(rows.len(), |i: int| R::spec_check(rows[i], schema))
}

/// Whether the rows can be written into a chunk of this schema: the error
/// of the first row that cannot.
pub open spec fn spec_check_rows<R: Row>(rows: Seq<R::V>, schema: Seq<PropertyModel>) -> Result<
    (),
    Error,
> {
    first_error(rows_checks::<R>(rows, schema))
}

/// Reads the rows of a chunk from `data` at `pos`.
pub fn read_rows<R: Row>(data: &[u8], pos: usize, schema: &Vec<TableHeaderProperty>) -> (res: Result<
    (Vec<R>, usize),
    Error,
>)
    ensures
        match spec_read_rows::<R>(data@, pos as int, views(schema@)) {
            Ok((ms, q)) => res matches Ok((v, p)) && views(v@) == ms && p == q && pos < p
                <= data.len(),
            Err(e) => res matches Err(f) && e == f,
        },
{
    if pos > data.len() {
        return Err(Error::Truncated);
    }
    let ghost s = data@;
    let ghost item = row_reader::<R>(views(schema@));
    let mut acc: Vec<R> = Vec::new();
    let mut p: usize = pos;
    proof {
        lemma_views_empty(acc@);
        match parse_until_zero(item, s, pos as int) {
            Ok((vs, r)) => {
                assert(Seq::<R::V>::empty() + vs =~= vs);
            },
            Err(_) => {},
        }
    }
    while p < data.len() && data[p] != 0
        invariant
            s == data@,
            item == row_reader::<R>(views(schema@)),
            pos <= p <= data.len(),
            parse_until_zero(item, s, pos as int) == with_prefix(
                views(acc@),
                parse_until_zero(item, s, p as int),
            ),
        decreases data.len() - p,
    {
        match R::read_row(data, p, schema) {
            Err(e) => {
                return Err(e);
            },
            Ok((v, q)) => {
                proof {
                    lemma_with_prefix_push(views(acc@), v@, parse_until_zero(item, s, q as int));
                    lemma_views_push(acc@, v);
                }
                acc.push(v);
                p = q;
            },
        }
    }
    if p >= data.len() {
        return Err(Error::Truncated);
    }
    proof {
        lemma_with_prefix_done(views(acc@), p + 1);
    }
    Ok((acc, p + 1))
}

/// Whether the rows can be written into a chunk of this schema, and if not,
/// why.
pub fn check_rows<R: Row>(rows: &Vec<R>, schema: &Vec<TableHeaderProperty>) -> (res: Result<(), Error>)
    ensures
        res == spec_check_rows::<R>(views(rows@), views(schema@)),
{
    let ghost checks = rows_checks::<R>(views(rows@), views(schema@));
    let mut i: usize = 0;
    while i < rows.len()
        invariant
            i <= rows.len(),
            checks == rows_checks::<R>(views(rows@), views(schema@)),
            forall|k: int| 0 <= k < i ==> (#[trigger] checks[k]) is Ok,
        decreases rows.len() - i,
    {
        assert(checks[i as int] == R::spec_check(rows@[i as int]@, views(schema@)));
        match rows[i].check_row(schema) {
            Err(e) => {
                proof {
                    lemma_first_error(checks, i as int);
                }
                return Err(e);
            },
            Ok(_) => {},
        }
        i = i + 1;
    }
    proof {
        lemma_first_error(checks, i as int);
    }
    Ok(())
}

/// Appends the wire form of the rows of a chunk to `out`: the rows, then a
/// zero byte. The rows must have passed the check against `schema`.
pub fn write_rows<R: Row>(rows: &Vec<R>, schema: &Vec<TableHeaderProperty>, out: &mut Vec<u8>)
    requires
        spec_check_rows::<R>(views(rows@), views(schema@)) is Ok,
    ensures
        final(out)@ == old(out)@ + rows_bytes::<R>(views(rows@)),
{
    let ghost schema = views(schema@);
    let ghost ms = views(rows@);
    let ghost enc = rows_encs::<R>(ms);
    let ghost checks = rows_checks::<R>(ms, schema);
    proof {
        lemma_first_error(checks, 0);
        lemma_concat_take(enc, 0);
    }
    let mut i: usize = 0;
    while i < rows.len()
        invariant
            i <= rows.len(),
            ms == views(rows@),
            enc == rows_encs::<R>(ms),
            checks == rows_checks::<R>(ms, schema),
            forall|k: int| 0 <= k < checks.len() ==> (#[trigger] checks[k]) is Ok,
            out@ == old(out)@ + concat(enc.take(i as int)),
        decreases rows.len() - i,
    {
        proof {
            lemma_concat_take(enc, i as int);
            assert(checks[i as int] is Ok);
            R::lemma_checked(ms[i as int], schema);
        }
        rows[i].write_row(out);
        i = i + 1;
        assert(out@ =~= old(out)@ + concat(enc.take(i as int)));
    }
    proof {
        lemma_concat_take(enc, i as int);
    }
    out.push(0u8);
    assert(out@ =~= old(out)@ + rows_bytes::<R>(ms));
}

/// Wherever the wire form of the rows of a chunk stands, reading the rows
/// there gives them back and stops right behind the zero byte, provided the
/// rows can be written into a chunk of this schema.
pub proof fn lemma_rows_round_trip<R: Row>(
    rows: Seq<R::V>,
    schema: Seq<PropertyModel>,
    s: Seq<u8>,
    pos: int,
)
    requires
        spec_check_rows::<R>(rows, schema) is Ok,
        has_at(s, pos, rows_bytes::<R>(rows)),
    ensures
        spec_read_rows::<R>(s, pos, schema) == Ok::<(Seq<R::V>, int), Error>(
            (rows, pos + rows_bytes::<R>(rows).len()),
        ),
{
    let enc = rows_encs::<R>(rows);
    let checks = rows_checks::<R>(rows, schema);
    lemma_first_error(checks, 0);
    assert forall|i: int| 0 <= i < enc.len() implies (#[trigger] enc[i]).len() > 0 && enc[i][0]
        != 0 by {
        assert(checks[i] is Ok);
        lemma_row_nonzero::<R>(rows[i], schema);
    }
    assert forall|i: int, p: int| 0 <= i < rows.len() && #[trigger] has_at(s, p, enc[i]) implies row_reader::<
        R,
    >(schema)(s, p) == Ok::<(R::V, int), Error>((rows[i], p + enc[i].len())) by {
        assert(checks[i] is Ok);
        R::lemma_round_trip(rows[i], schema, s, p);
    }
    lemma_until_zero_round_trip(row_reader::<R>(schema), rows, enc, s, pos);
}

/// `R::spec_canonical` against a schema, as a value.
pub open spec fn row_canon<R: Row>(schema: Seq<PropertyModel>) -> spec_fn(Seq<u8>, int) -> bool {
    |s: Seq<u8>, pos: int| R::spec_canonical(s, pos, schema)
}

/// `R::spec_bytes` as a value.
pub open spec fn row_enc<R: Row>() -> spec_fn(R::V) -> Seq<u8> {
    |m: R::V| R::spec_bytes(m)
}

/// The rows of a chunk stand in `s` at `pos`, each with every size and
/// count in the shortest form and as the writer computes it.
pub open spec fn canonical_rows_at<R: Row>(s: Seq<u8>, pos: int, schema: Seq<PropertyModel>) -> bool {
    all_until_zero(row_reader::<R>(schema), row_canon::<R>(schema), s, pos)
}

/// The rows of a chunk in that form are what the writer gives for them.
pub proof fn lemma_canonical_rows_at<R: Row>(
    s: Seq<u8>,
    pos: int,
    schema: Seq<PropertyModel>,
    rows: Seq<R::V>,
    q: int,
)
    requires
        canonical_rows_at::<R>(s, pos, schema),
        spec_read_rows::<R>(s, pos, schema) == Ok::<(Seq<R::V>, int), Error>((rows, q)),
    ensures
        0 <= pos < q <= s.len(),
        s.subrange(pos, q) == rows_bytes::<R>(rows),
{
    assert forall|p: int| #[trigger] row_canon::<R>(schema)(s, p) implies (row_reader::<R>(schema)(
        s,
        p,
    ) matches Ok((v, r)) && 0 <= p <= r <= s.len() && s.subrange(p, r) == row_enc::<R>()(v)) by {
        R::lemma_canonical_ok(s, p, schema);
        let (v, r) = R::spec_read(s, p, schema).unwrap();
        R::lemma_canonical(s, p, schema, v, r);
    }
    lemma_until_zero_exact(
        row_reader::<R>(schema),
        row_canon::<R>(schema),
        row_enc::<R>(),
        s,
        pos,
        rows,
        q,
    );
    assert(encs_of(row_enc::<R>(), rows) =~= rows_encs::<R>(rows));
}

/// Where the wire form of the rows of a chunk stands, the rows stand in
/// the form that the writer gives, provided they can be written into a
/// chunk of this schema.
pub proof fn lemma_written_rows_at<R: Row>(
    rows: Seq<R::V>,
    schema: Seq<PropertyModel>,
    s: Seq<u8>,
    pos: int,
)
    requires
        spec_check_rows::<R>(rows, schema) is Ok,
        has_at(s, pos, rows_bytes::<R>(rows)),
    ensures
        canonical_rows_at::<R>(s, pos, schema),
{
    let enc = rows_encs::<R>(rows);
    let checks = rows_checks::<R>(rows, schema);
    lemma_first_error(checks, 0);
    assert forall|i: int| 0 <= i < enc.len() implies (#[trigger] enc[i]).len() > 0 && enc[i][0]
        != 0 by {
        assert(checks[i] is Ok);
        lemma_row_nonzero::<R>(rows[i], schema);
    }
    assert forall|i: int, p: int| 0 <= i < rows.len() && #[trigger] has_at(s, p, enc[i]) implies row_reader::<
        R,
    >(schema)(s, p) == Ok::<(R::V, int), Error>((rows[i], p + enc[i].len())) && row_canon::<R>(
        schema,
    )(s, p) by {
        assert(checks[i] is Ok);
        R::lemma_round_trip(rows[i], schema, s, p);
        R::lemma_written(rows[i], schema, s, p);
    }
    lemma_until_zero_all(
        row_reader::<R>(schema),
        row_canon::<R>(schema),
        rows,
        enc,
        s,
        pos,
    );
}

/// Rows that were read can be written into a chunk of the schema they
/// were read against, and they stand inside the input.
pub proof fn lemma_parsed_rows<R: Row>(
    s: Seq<u8>,
    pos: int,
    schema: Seq<PropertyModel>,
    rows: Seq<R::V>,
    q: int,
)
    requires
        spec_read_rows::<R>(s, pos, schema) == Ok::<(Seq<R::V>, int), Error>((rows, q)),
    ensures
        spec_check_rows::<R>(rows, schema) is Ok,
        0 <= pos < q <= s.len(),
    decreases s.len() - pos,
{
    let checks = rows_checks::<R>(rows, schema);
    if s[pos] != 0 {
        let (m, p) = R::spec_read(s, pos, schema).unwrap();
        R::lemma_parsed(s, pos, schema, m, p);
        let (rest, r) = parse_until_zero(row_reader::<R>(schema), s, p).unwrap();
        lemma_parsed_rows::<R>(s, p, schema, rest, r);
        assert(rows =~= seq![m] + rest);
        lemma_first_error(rows_checks::<R>(rest, schema), 0);
        assert forall|k: int| 0 <= k < checks.len() implies (#[trigger] checks[k]) is Ok by {
            if k > 0 {
                assert(rows[k] == rest[k - 1]);
                assert(rows_checks::<R>(rest, schema)[k - 1] is Ok);
            }
        }
        lemma_first_error(checks, checks.len() as int);
    } else {
        lemma_first_error(checks, 0);
    }
}

/// The wire form of a row that can be written does not start with a zero
/// byte.
proof fn lemma_row_nonzero<R: Row>(m: R::V, schema: Seq<PropertyModel>)
    requires
        R::spec_check(m, schema) is Ok,
    ensures
        R::spec_bytes(m).len() > 0,
        R::spec_bytes(m)[0] != 0,
{
    let b = R::spec_bytes(m);
    assert(has_at(b, 0, b)) by {
        assert(b.subrange(0, b.len() as int) =~= b);
    }
    R::lemma_round_trip(m, schema, b, 0);
}

} // verus!
