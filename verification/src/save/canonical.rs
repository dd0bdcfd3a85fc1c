use crate::chtable::canonical::{
    canonical_gamma, canonical_schema, lemma_canonical_schema, lemma_written_gamma,
    lemma_written_schema,
};
use crate::chtable::parsed::lemma_parsed_gamma;
use crate::chtable::property::{
    header_of, lemma_header_of, lemma_schema_round_trip, PropertyModel, schema_bytes, schema_len,
    shape_ok, spec_parse_schema,
};
use crate::chtable::row::{ChSparseTableElement, ChTableElement, RowModel, SparseRowModel};
use crate::chtable::schema::lemma_header_bytes_len;
use crate::error::Error;
use crate::gamma::{gamma_bytes, spec_gamma_length, spec_parse_gamma};
use crate::repeat::{
    concat, lemma_concat_first, lemma_concat_take, lemma_first_error, lemma_subrange_join,
};
use crate::save::array::{ChArrayElement, ChSparseArrayElement};
use crate::save::chunk::{
    ChunkValueModel, riff_size_at, riff_size_bytes, shape_byte, spec_check_table_head,
    spec_check_value, spec_parse_chunk_value, table_head_bytes, value_body_bytes,
};
use crate::save::container::{
    CompressionType, head_bytes, magic_bytes, plain_bytes, SaveModel, spec_check_save,
    spec_compression, spec_decode,
};
use crate::save::laws::{lemma_decoded_checks, written_plain};
use crate::save::rows::{
    canonical_rows_at, lemma_canonical_rows_at, lemma_written_rows_at, rows_bytes,
};
use crate::save::stream::{
    chunk_bytes, chunk_wf, ChunkModel, chunks_checks, chunks_encs, chunks_wf, is_zero_tag,
    lemma_checked_schema, lemma_chunk_round_trip, lemma_chunk_value_round_trip,
    lemma_payload_round_trip, payload_bytes, spec_check_chunk, spec_check_chunks, spec_parse_chunk,
    spec_parse_chunks, value_wf,
};
use crate::wire::{
    has_at, lemma_has_at_index, lemma_has_at_split, lemma_join_bytes, lemma_uint_bytes_at,
    uint_bytes,
};
use vstd::prelude::*;

verus! {

/// The head of a table stands in `s` at `pos` as the writer gives it: the
/// gamma in front of the schema in its shortest form and one more than the
/// length of the schema, and the schema with every length in the shortest
/// form.
pub open spec fn canonical_table_head(s: Seq<u8>, pos: int) -> bool {
    &&& canonical_gamma(s, pos)
    &&& match spec_parse_gamma(s, pos) {
        Err(_) => false,
        Ok((n, q)) => canonical_schema(s, q) && match spec_parse_schema(s, q) {
            Err(_) => false,
            Ok((schema, _)) => n == schema_len(schema) + 1,
        },
    }
}

/// What follows the shape byte `shape` stands in `s` at `pos` as the
/// writer gives it: every size and count in its shortest form and as the
/// writer computes it, and a shape byte whose high four bits are zero for
/// every shape but RIFF.
pub open spec fn canonical_chunk_value(s: Seq<u8>, pos: int, shape: u8) -> bool {
    let kind = shape % 16;
    if kind == 0 {
        spec_parse_chunk_value(s, pos, shape) is Ok
    } else if kind == 1 {
        shape == 1 && canonical_rows_at::<ChArrayElement>(s, pos, Seq::empty())
    } else if kind == 2 {
        shape == 2 && canonical_rows_at::<ChSparseArrayElement>(s, pos, Seq::empty())
    } else if kind == 3 {
        shape == 3 && canonical_table_head(s, pos) && match spec_parse_gamma(s, pos) {
            Err(_) => false,
            Ok((_, q)) => match spec_parse_schema(s, q) {
                Err(_) => false,
                Ok((schema, r)) => canonical_rows_at::<ChTableElement>(s, r, schema),
            },
        }
    } else if kind == 4 {
        shape == 4 && canonical_table_head(s, pos) && match spec_parse_gamma(s, pos) {
            Err(_) => false,
            Ok((_, q)) => match spec_parse_schema(s, q) {
                Err(_) => false,
                Ok((schema, r)) => canonical_rows_at::<ChSparseTableElement>(s, r, schema),
            },
        }
    } else {
        false
    }
}

/// The head of a table in that form is what the writer gives for it.
proof fn lemma_canonical_table_head(s: Seq<u8>, pos: int)
    requires
        canonical_table_head(s, pos),
    ensures
        spec_parse_gamma(s, pos) matches Ok((_, q)) && spec_parse_schema(s, q) matches Ok(
            (schema, r),
        ) && 0 <= pos <= r <= s.len() && s.subrange(pos, r) == table_head_bytes(schema),
{
    let (n, q) = spec_parse_gamma(s, pos).unwrap();
    lemma_parsed_gamma(s, pos, n, q);
    let (schema, r) = spec_parse_schema(s, q).unwrap();
    lemma_canonical_schema(s, q, schema, r);
    lemma_subrange_join(s, pos, q, r);
}

/// The size bytes and the payload of a RIFF chunk that were read are what
/// the writer gives for them, under the same shape byte.
proof fn lemma_canonical_riff(s: Seq<u8>, pos: int, shape: u8, d: Seq<u8>, q: int)
    requires
        shape % 16 == 0,
        spec_parse_chunk_value(s, pos, shape) == Ok::<(ChunkValueModel, int), Error>(
            (ChunkValueModel::Riff(d), q),
        ),
    ensures
        0 <= pos <= q <= s.len(),
        shape_byte(ChunkValueModel::Riff(d)) == shape,
        s.subrange(pos, q) == riff_size_bytes(d.len()) + d,
{
    let hi = shape as int / 16;
    lemma_join_bytes(hi, s[pos] as int, s[pos + 1] as int, s[pos + 2] as int);
    assert(d.len() == riff_size_at(s, pos, hi));
    assert(s.subrange(pos, pos + 3) =~= riff_size_bytes(d.len()));
    lemma_subrange_join(s, pos, pos + 3, q);
}

/// A value in that form is what the writer gives for it, under the same
/// shape byte.
pub proof fn lemma_canonical_chunk_value(s: Seq<u8>, pos: int, shape: u8, v: ChunkValueModel, q: int)
    requires
        canonical_chunk_value(s, pos, shape),
        spec_parse_chunk_value(s, pos, shape) == Ok::<(ChunkValueModel, int), Error>((v, q)),
    ensures
        0 <= pos <= q <= s.len(),
        shape_byte(v) == shape,
        s.subrange(pos, q) == value_body_bytes(v),
{
    let kind = shape % 16;
    if kind == 0 {
        lemma_canonical_riff(s, pos, shape, v->Riff_0, q);
    } else if kind == 1 {
        lemma_canonical_rows_at::<ChArrayElement>(s, pos, Seq::empty(), v->Array_0, q);
    } else if kind == 2 {
        lemma_canonical_rows_at::<ChSparseArrayElement>(s, pos, Seq::empty(), v->SparseArray_0, q);
    } else if kind == 3 {
        lemma_canonical_table_head(s, pos);
        let (n, p) = spec_parse_gamma(s, pos).unwrap();
        let (schema, r) = spec_parse_schema(s, p).unwrap();
        lemma_canonical_rows_at::<ChTableElement>(s, r, schema, v->Table_1, q);
        lemma_subrange_join(s, pos, r, q);
    } else {
        lemma_canonical_table_head(s, pos);
        let (n, p) = spec_parse_gamma(s, pos).unwrap();
        let (schema, r) = spec_parse_schema(s, p).unwrap();
        lemma_canonical_rows_at::<ChSparseTableElement>(s, r, schema, v->SparseTable_1, q);
        lemma_subrange_join(s, pos, r, q);
    }
}

/// A chunk stands in `s` at `pos` as the writer gives it.
pub open spec fn canonical_chunk(s: Seq<u8>, pos: int) -> bool {
    0 <= pos && pos + 5 <= s.len() && canonical_chunk_value(s, pos + 5, s[pos + 4])
}

/// A chunk in that form is what the writer gives for it.
pub proof fn lemma_canonical_chunk(s: Seq<u8>, pos: int, c: ChunkModel, q: int)
    requires
        canonical_chunk(s, pos),
        spec_parse_chunk(s, pos) == Ok::<(ChunkModel, int), Error>((c, q)),
    ensures
        0 <= pos < q <= s.len(),
        s.subrange(pos, q) == chunk_bytes(c),
{
    lemma_canonical_chunk_value(s, pos + 5, s[pos + 4], c.value, q);
    assert(s.subrange(pos, pos + 5) =~= c.tag + seq![shape_byte(c.value)]);
    lemma_subrange_join(s, pos, pos + 5, q);
}

/// A payload stands in `s` at `pos` as the writer gives it: every chunk up
/// to the terminator in that form.
pub open spec fn canonical_chunks(s: Seq<u8>, pos: int) -> bool
    decreases s.len() - pos,
{
    if pos < 0 || pos + 4 > s.len() {
        false
    } else if is_zero_tag(s.subrange(pos, pos + 4)) {
        true
    } else {
        canonical_chunk(s, pos) && match spec_parse_chunk(s, pos) {
            Err(_) => false,
            Ok((_, q)) => if q <= pos || q > s.len() {
                false
            } else {
                canonical_chunks(s, q)
            },
        }
    }
}

/// A payload in that form is what the writer gives for its chunks.
pub proof fn lemma_canonical_chunks(s: Seq<u8>, pos: int, chunks: Seq<ChunkModel>, q: int)
    requires
        canonical_chunks(s, pos),
        spec_parse_chunks(s, pos) == Ok::<(Seq<ChunkModel>, int), Error>((chunks, q)),
    ensures
        0 <= pos < q <= s.len(),
        s.subrange(pos, q) == payload_bytes(chunks),
    decreases s.len() - pos,
{
    let end = seq![0u8, 0u8, 0u8, 0u8];
    if is_zero_tag(s.subrange(pos, pos + 4)) {
        assert(chunks_encs(chunks) =~= Seq::<Seq<u8>>::empty());
        lemma_concat_take(chunks_encs(chunks), 0);
        assert(chunks_encs(chunks).take(0) =~= chunks_encs(chunks));
        assert(s.subrange(pos, q) =~= end);
        assert(payload_bytes(chunks) =~= end);
    } else {
        let (c, p) = spec_parse_chunk(s, pos).unwrap();
        lemma_canonical_chunk(s, pos, c, p);
        let (rest, r) = spec_parse_chunks(s, p).unwrap();
        lemma_canonical_chunks(s, p, rest, r);
        assert(chunks =~= seq![c] + rest);
        let e = chunks_encs(chunks);
        lemma_concat_first(e);
        assert(e.drop_first() =~= chunks_encs(rest));
        lemma_subrange_join(s, pos, p, q);
        assert(s.subrange(pos, q) =~= payload_bytes(chunks));
    }
}

/// `bytes` are a save that is not packed, in the form that the writer
/// gives: the magic `OTTN`, then a payload in which every gamma stands in
/// its shortest form, every size is what the writer computes, the shape
/// bytes carry nothing but the shape and the top of a RIFF length, and
/// nothing follows the terminator.
pub open spec fn canonical_plain(bytes: Seq<u8>) -> bool {
    &&& bytes.len() >= 8
    &&& spec_compression(bytes.subrange(0, 4)) == Some(CompressionType::OTTN)
    &&& canonical_chunks(bytes.skip(8), 0)
    &&& spec_parse_chunks(bytes.skip(8), 0) matches Ok((_, q)) && q == bytes.len() - 8
}

/// Round trip of the chunk stream: bytes that are not packed and stand in
/// the form that the writer gives read as a save whose wire form is those
/// bytes, byte for byte.
pub proof fn lemma_canonical_plain(bytes: Seq<u8>)
    requires
        canonical_plain(bytes),
    ensures
        spec_decode(bytes) matches Ok(save) && save.compression == CompressionType::OTTN
            && plain_bytes(save) == bytes,
{
    let payload = bytes.skip(8);
    let (chunks, q) = spec_parse_chunks(payload, 0).unwrap();
    lemma_canonical_chunks(payload, 0, chunks, q);
    assert(payload.subrange(0, q) =~= payload);
    let save = spec_decode(bytes).unwrap();
    lemma_uint_bytes_at(bytes, 4, 2);
    lemma_uint_bytes_at(bytes, 6, 2);
    let m = bytes.subrange(0, 4);
    assert(m =~= magic_bytes(CompressionType::OTTN)) by {
        assert(m[0] == 0x4F && m[1] == 0x54 && m[2] == 0x54 && m[3] == 0x4E);
    }
    let head = head_bytes(CompressionType::OTTN, save.version, save.ignored);
    assert(head =~= bytes.subrange(0, 8)) by {
        assert(uint_bytes(save.version as int, 2) == bytes.subrange(4, 6));
        assert(uint_bytes(save.ignored as int, 2) == bytes.subrange(6, 8));
        assert(head =~= (m + bytes.subrange(4, 6)) + bytes.subrange(6, 8));
    }
    assert(plain_bytes(save) =~= bytes);
}

/// Bytes in that form, with a payload shorter than `u32::MAX` bytes, are
/// among those that the writer can give.
pub proof fn lemma_canonical_is_written(bytes: Seq<u8>)
    requires
        canonical_plain(bytes),
        bytes.len() < u32::MAX,
    ensures
        written_plain(bytes),
{
    lemma_canonical_plain(bytes);
    let save = spec_decode(bytes).unwrap();
    lemma_decoded_checks(bytes, save);
}

/// Where the head of a table that can be written stands, it stands in the
/// form that the writer gives and is read back.
proof fn lemma_written_table_head(
    schema: Seq<PropertyModel>,
    s: Seq<u8>,
    pos: int,
)
    requires
        spec_check_table_head(schema) is Ok,
        shape_ok(schema),
        has_at(s, pos, table_head_bytes(schema)),
    ensures
        canonical_table_head(s, pos),
        spec_parse_gamma(s, pos) matches Ok((_, q)) && spec_parse_schema(s, q) == Ok::<
            (Seq<PropertyModel>, int),
            Error,
        >((schema, pos + table_head_bytes(schema).len())),
{
    lemma_checked_schema(schema);
    let n = (schema_len(schema) + 1) as u32;
    let g = gamma_bytes(n);
    let sb = schema_bytes(schema);
    lemma_has_at_split(s, pos, g, sb);
    lemma_written_gamma(s, pos, n);
    let q = pos + spec_gamma_length(n);
    lemma_written_schema(schema, s, q);
    lemma_schema_round_trip(schema, s, q);
    lemma_header_of(schema);
    lemma_header_bytes_len(header_of(schema));
}

/// Where the head and the rows of a table that can be written stand, they
/// stand in the form that the writer gives.
proof fn lemma_written_table(
    schema: Seq<PropertyModel>,
    rows: Seq<RowModel>,
    s: Seq<u8>,
    pos: int,
)
    requires
        spec_check_value(ChunkValueModel::Table(schema, rows)) is Ok,
        shape_ok(schema),
        has_at(s, pos, value_body_bytes(ChunkValueModel::Table(schema, rows))),
    ensures
        canonical_chunk_value(s, pos, 3u8),
{
    lemma_has_at_split(
        s,
        pos,
        table_head_bytes(schema),
        rows_bytes::<ChTableElement>(rows),
    );
    lemma_written_table_head(schema, s, pos);
    lemma_written_rows_at::<ChTableElement>(
        rows,
        schema,
        s,
        pos + table_head_bytes(schema).len(),
    );
}

/// Where the head and the rows of a sparse table that can be written
/// stand, they stand in the form that the writer gives.
proof fn lemma_written_sparse_table(
    schema: Seq<PropertyModel>,
    rows: Seq<SparseRowModel>,
    s: Seq<u8>,
    pos: int,
)
    requires
        spec_check_value(ChunkValueModel::SparseTable(schema, rows)) is Ok,
        shape_ok(schema),
        has_at(s, pos, value_body_bytes(ChunkValueModel::SparseTable(schema, rows))),
    ensures
        canonical_chunk_value(s, pos, 4u8),
{
    lemma_has_at_split(
        s,
        pos,
        table_head_bytes(schema),
        rows_bytes::<ChSparseTableElement>(rows),
    );
    lemma_written_table_head(schema, s, pos);
    lemma_written_rows_at::<ChSparseTableElement>(
        rows,
        schema,
        s,
        pos + table_head_bytes(schema).len(),
    );
}

/// Where what follows the shape byte of a value stands, it stands in the
/// form that the writer gives under that shape byte, provided the value can
/// be written.
pub proof fn lemma_written_chunk_value(v: ChunkValueModel, s: Seq<u8>, pos: int)
    requires
        spec_check_value(v) is Ok,
        value_wf(v),
        has_at(s, pos, value_body_bytes(v)),
    ensures
        canonical_chunk_value(s, pos, shape_byte(v)),
{
    match v {
        ChunkValueModel::Riff(d) => {
            lemma_chunk_value_round_trip(v, s, pos);
            assert(shape_byte(v) % 16 == 0) by {
                assert(d.len() / 0x100_0000 < 16);
            }
        },
        ChunkValueModel::Array(rows) => {
            lemma_written_rows_at::<ChArrayElement>(rows, Seq::empty(), s, pos);
        },
        ChunkValueModel::SparseArray(rows) => {
            lemma_written_rows_at::<ChSparseArrayElement>(
                rows,
                Seq::empty(),
                s,
                pos,
            );
        },
        ChunkValueModel::Table(schema, rows) => {
            lemma_written_table(schema, rows, s, pos);
        },
        ChunkValueModel::SparseTable(schema, rows) => {
            lemma_written_sparse_table(schema, rows, s, pos);
        },
    }
}

/// Where the wire form of a chunk stands, a chunk stands in the form that
/// the writer gives, provided the chunk can be written.
pub proof fn lemma_written_chunk(c: ChunkModel, s: Seq<u8>, pos: int)
    requires
        spec_check_chunk(c) is Ok,
        chunk_wf(c),
        has_at(s, pos, chunk_bytes(c)),
    ensures
        canonical_chunk(s, pos),
{
    let body = value_body_bytes(c.value);
    let head = c.tag + seq![shape_byte(c.value)];
    assert(chunk_bytes(c) =~= head + body);
    lemma_has_at_split(s, pos, head, body);
    lemma_has_at_split(s, pos, c.tag, seq![shape_byte(c.value)]);
    lemma_has_at_index(s, pos + 4, seq![shape_byte(c.value)], 0);
    lemma_written_chunk_value(c.value, s, pos + 5);
}

/// Where chunks stand one after the other with the terminator behind them,
/// each read back and in the form that the writer gives wherever it stands,
/// the payload stands in that form.
proof fn lemma_written_chunks(chunks: Seq<ChunkModel>, enc: Seq<Seq<u8>>, s: Seq<u8>, pos: int)
    requires
        enc.len() == chunks.len(),
        has_at(s, pos, concat(enc) + seq![0u8, 0u8, 0u8, 0u8]),
        forall|i: int| 0 <= i < enc.len() ==> (#[trigger] enc[i]).len() >= 5,
        forall|i: int, p: int|
            0 <= i < chunks.len() && #[trigger] has_at(s, p, enc[i]) ==> spec_parse_chunk(
                s,
                p,
            ) == Ok::<(ChunkModel, int), Error>((chunks[i], p + enc[i].len())) && !is_zero_tag(
                s.subrange(p, p + 4),
            ) && canonical_chunk(s, p),
    ensures
        canonical_chunks(s, pos),
    decreases chunks.len(),
{
    let end = seq![0u8, 0u8, 0u8, 0u8];
    if chunks.len() == 0 {
        assert(enc =~= Seq::<Seq<u8>>::empty());
        lemma_concat_take(enc, 0);
        assert(concat(enc) + end =~= end);
        assert(s.subrange(pos, pos + 4) =~= end);
    } else {
        lemma_concat_first(enc);
        let rest = concat(enc.drop_first());
        assert(concat(enc) + end =~= enc[0] + (rest + end));
        lemma_has_at_split(s, pos, enc[0], rest + end);
        assert(has_at(s, pos, enc[0]));
        let q = pos + enc[0].len();
        let chunks1 = chunks.drop_first();
        let enc1 = enc.drop_first();
        assert forall|i: int| 0 <= i < enc1.len() implies (#[trigger] enc1[i]).len() >= 5 by {
            assert(enc1[i] == enc[i + 1]);
        }
        assert forall|i: int, p: int|
            0 <= i < chunks1.len() && #[trigger] has_at(
                s,
                p,
                enc1[i],
            ) implies spec_parse_chunk(s, p) == Ok::<(ChunkModel, int), Error>(
            (chunks1[i], p + enc1[i].len()),
        ) && !is_zero_tag(s.subrange(p, p + 4)) && canonical_chunk(s, p) by {
            assert(enc1[i] == enc[i + 1]);
            assert(has_at(s, p, enc[i + 1]));
        }
        lemma_written_chunks(chunks1, enc1, s, q);
    }
}

/// Where a payload stands, it stands in the form that the writer gives,
/// provided its chunks can be written.
pub proof fn lemma_written_payload(chunks: Seq<ChunkModel>, s: Seq<u8>, pos: int)
    requires
        spec_check_chunks(chunks) is Ok,
        chunks_wf(chunks),
        has_at(s, pos, payload_bytes(chunks)),
    ensures
        canonical_chunks(s, pos),
{
    let enc = chunks_encs(chunks);
    let checks = chunks_checks(chunks);
    lemma_first_error(checks, 0);
    assert forall|i: int| 0 <= i < enc.len() implies (#[trigger] enc[i]).len() >= 5 by {
        assert(checks[i] is Ok);
        assert(chunk_wf(chunks[i]));
        let b = enc[i];
        assert(has_at(b, 0, b)) by {
            assert(b.subrange(0, b.len() as int) =~= b);
        }
        lemma_chunk_round_trip(chunks[i], b, 0);
    }
    assert forall|i: int, p: int|
        0 <= i < chunks.len() && #[trigger] has_at(
            s,
            p,
            enc[i],
        ) implies spec_parse_chunk(s, p) == Ok::<(ChunkModel, int), Error>(
        (chunks[i], p + enc[i].len()),
    ) && !is_zero_tag(s.subrange(p, p + 4)) && canonical_chunk(s, p) by {
        assert(checks[i] is Ok);
        assert(chunk_wf(chunks[i]));
        lemma_chunk_round_trip(chunks[i], s, p);
        lemma_written_chunk(chunks[i], s, p);
    }
    lemma_written_chunks(chunks, enc, s, pos);
}

/// The parts of the wire form of a save that is not packed: the magic, and
/// behind the first eight bytes the payload.
proof fn lemma_plain_parts(save: SaveModel)
    requires
        save.compression == CompressionType::OTTN,
    ensures
        plain_bytes(save).len() >= 8,
        plain_bytes(save).subrange(0, 4) == magic_bytes(CompressionType::OTTN),
        plain_bytes(save).skip(8) == payload_bytes(save.chunks),
{
    let head = head_bytes(CompressionType::OTTN, save.version, save.ignored);
    let b = plain_bytes(save);
    assert(head.len() == 8);
    assert(b.subrange(0, 4) =~= magic_bytes(CompressionType::OTTN));
    assert(b.skip(8) =~= payload_bytes(save.chunks));
}

/// The magic of a codec names that codec.
proof fn lemma_magic(c: CompressionType)
    ensures
        spec_compression(magic_bytes(c)) == Some(c),
{
    let m = magic_bytes(c);
    assert(m[0] == 0x4F && m[1] == 0x54 && m[2] == 0x54);
}

/// The wire form of a save that can be written without packing stands in
/// the form that the writer gives.
proof fn lemma_plain_is_canonical(save: SaveModel)
    requires
        spec_check_save(save) is Ok,
        chunks_wf(save.chunks),
        save.compression == CompressionType::OTTN,
    ensures
        canonical_plain(plain_bytes(save)),
{
    let bytes = plain_bytes(save);
    lemma_plain_parts(save);
    lemma_magic(CompressionType::OTTN);
    let payload = payload_bytes(save.chunks);
    assert(has_at(payload, 0, payload)) by {
        assert(payload.subrange(0, payload.len() as int) =~= payload);
    }
    assert(canonical_chunks(payload, 0)) by {
        lemma_written_payload(save.chunks, payload, 0);
    }
    assert(spec_parse_chunks(payload, 0) == Ok::<(Seq<ChunkModel>, int), Error>(
        (save.chunks, payload.len() as int),
    )) by {
        lemma_payload_round_trip(save.chunks, payload, 0);
    }
}

/// What the writer gives stands in the form that the writer gives: the
/// wire form of every save that can be written without packing is in that
/// form.
pub proof fn lemma_written_is_canonical(bytes: Seq<u8>)
    requires
        written_plain(bytes),
    ensures
        canonical_plain(bytes),
{
    let save = choose|save: SaveModel|
        spec_check_save(save) is Ok && chunks_wf(
            save.chunks,
        ) && save.compression == CompressionType::OTTN && #[trigger] plain_bytes(save) == bytes;
    lemma_plain_is_canonical(save);
}

} // verus!
