use crate::chtable::parsed_schema::lemma_parsed_schema;
use crate::chtable::property::{
    header_of, lemma_header_of, lemma_schema_ok_model, lemma_schema_round_trip, PropertyModel,
    schema_bytes, schema_len, schema_ok, shape_ok, spec_parse_schema,
};
use crate::chtable::row::{ChSparseTableElement, ChTableElement, RowModel, SparseRowModel};
use crate::chtable::schema::lemma_header_bytes_len;
use crate::error::{agrees, Error};
use crate::gamma::{
    gamma_bytes, lemma_gamma_bytes_len, lemma_gamma_parse_at, spec_gamma_length, spec_parse_gamma,
};
use crate::repeat::{
    concat, first_error, lemma_concat_first, lemma_concat_take, lemma_first_error, lemma_views_empty, lemma_views_push,
    lemma_with_prefix_done, lemma_with_prefix_push, views, with_prefix,
};
use crate::save::array::{ChArrayElement, ChSparseArrayElement};
use crate::save::chunk::{
    ChunkType, ChunkValue, ChunkValueModel, riff_size_at, riff_size_bytes, shape_byte, shape_high,
    spec_check_table_head, spec_check_value, spec_parse_chunk_value, table_head_bytes,
    value_body_bytes,
};
use crate::save::rows::{lemma_parsed_rows, lemma_rows_round_trip, rows_bytes};
use crate::text::{is_ascii_bytes, lemma_ascii_is_utf8, lossy_text, TableString};
use crate::wire::{has_at, lemma_has_at_index, lemma_has_at_split, lemma_u32_parts};
use vstd::prelude::*;
use vstd::string::StringSliceAdditionalSpecFns;
use vstd::utf8::{encode_utf8, valid_utf8};

verus! {

/// A chunk: its four-byte tag and what it holds.
pub struct ChunkModel {
    pub tag: Seq<u8>,
    pub value: ChunkValueModel,
}

/// A tagged section of the payload of a save.
#[derive(Debug, PartialEq, Eq)]
pub struct Chunk {
    pub tag: [u8; 4],
    pub value: ChunkValue,
}

impl View for Chunk {
    type V = ChunkModel;

    open spec fn view(&self) -> ChunkModel {
        ChunkModel { tag: self.tag@, value: self.value@ }
    }
}

/// The chunks of a payload, in order, without the terminator.
#[derive(Debug, PartialEq, Eq)]
pub struct Chunks {
    pub chunks: Vec<Chunk>,
}

impl View for Chunks {
    type V = Seq<ChunkModel>;

    open spec fn view(&self) -> Seq<ChunkModel> {
        views(self.chunks@)
    }
}

/// Whether the four bytes are all zero: the tag that ends a payload.
pub open spec fn is_zero_tag(t: Seq<u8>) -> bool {
    t[0] == 0 && t[1] == 0 && t[2] == 0 && t[3] == 0
}

/// Reading a chunk from `s` at `pos`: tag, shape byte, and what the shape
/// byte announces.
pub open spec fn spec_parse_chunk(s: Seq<u8>, pos: int) -> Result<(ChunkModel, int), Error> {
    if pos < 0 || pos + 5 > s.len() {
        Err(Error::Truncated)
    } else {
        match spec_parse_chunk_value(s, pos + 5, s[pos + 4]) {
            Err(e) => Err(e),
            Ok((v, q)) => Ok((ChunkModel { tag: s.subrange(pos, pos + 4), value: v }, q)),
        }
    }
}

/// Reading a payload from `s` at `pos`: chunks until a tag of four zero
/// bytes, which is consumed and is no chunk. What follows it is not looked
/// at. `Truncated` where `s` ends before that tag.
pub open spec fn spec_parse_chunks(s: Seq<u8>, pos: int) -> Result<(Seq<ChunkModel>, int), Error>
    decreases s.len() - pos,
{
    if pos < 0 || pos + 4 > s.len() {
        Err(Error::Truncated)
    } else if is_zero_tag(s.subrange(pos, pos + 4)) {
        Ok((Seq::empty(), pos + 4))
    } else {
        match spec_parse_chunk(s, pos) {
            Err(e) => Err(e),
            Ok((c, q)) => if q <= pos || q > s.len() {
                Err(Error::Truncated)
            } else {
                with_prefix(seq![c], spec_parse_chunks(s, q))
            },
        }
    }
}

/// The wire form of a chunk: tag, shape byte, and what the value's shape
/// asks for.
pub open spec fn chunk_bytes(c: ChunkModel) -> Seq<u8> {
    c.tag + seq![shape_byte(c.value)] + value_body_bytes(c.value)
}

/// Whether a chunk can be written, and if not, why: `InvalidChunk` for a
/// tag of four zero bytes, else the error of its value.
pub open spec fn spec_check_chunk(c: ChunkModel) -> Result<(), Error> {
    if is_zero_tag(c.tag) {
        Err(Error::InvalidChunk)
    } else {
        spec_check_value(c.value)
    }
}

/// The wire forms of the chunks, each on its own.
pub open spec fn chunks_encs(chunks: Seq<ChunkModel>) -> Seq<Seq<u8>> {
    Seq::new(chunks.len(), |i: int| chunk_bytes(chunks[i]))
}

/// The outcomes of checking each chunk.
pub open spec fn chunks_checks(chunks: Seq<ChunkModel>) -> Seq<Result<(), Error>> {
    Seq::new(chunks.len(), |i: int| spec_check_chunk(chunks[i]))
}

/// Whether the chunks can be written: the error of the first chunk that
/// cannot.
pub open spec fn spec_check_chunks(chunks: Seq<ChunkModel>) -> Result<(), Error> {
    first_error(chunks_checks(chunks))
}

/// The payload of a save: the chunks, then a tag of four zero bytes.
pub open spec fn payload_bytes(chunks: Seq<ChunkModel>) -> Seq<u8> {
    concat(chunks_encs(chunks)) + seq![0u8, 0u8, 0u8, 0u8]
}

impl Chunk {
    /// Reads a chunk from `data` at `pos`.
    pub fn read(data: &[u8], pos: usize) -> (res: Result<(Chunk, usize), Error>)
        ensures
            agrees(res, spec_parse_chunk(data@, pos as int)),
            res matches Ok((_, p)) ==> pos < p <= data.len(),
    {
        if pos > data.len() || data.len() - pos < 5 {
            return Err(Error::Truncated);
        }
        let tag: [u8; 4] = [data[pos], data[pos + 1], data[pos + 2], data[pos + 3]];
        assert(tag@ =~= data@.subrange(pos as int, pos + 4));
        let chunk_type = ChunkType::from_byte(data[pos + 4]);
        match ChunkValue::read(data, pos + 5, chunk_type) {
            Ok((value, p)) => Ok((Chunk { tag, value }, p)),
            Err(e) => Err(e),
        }
    }

    /// Whether the chunk can be written, and if not, why.
    pub fn check(&self) -> (res: Result<(), Error>)
        ensures
            res == spec_check_chunk(self@),
    {
        if self.tag[0] == 0 && self.tag[1] == 0 && self.tag[2] == 0 && self.tag[3] == 0 {
            return Err(Error::InvalidChunk);
        }
        self.value.check()
    }

    /// Appends the wire form to `out`.
    pub fn write(&self, out: &mut Vec<u8>)
        requires
            spec_check_chunk(self@) is Ok,
        ensures
            final(out)@ == old(out)@ + chunk_bytes(self@),
    {
        out.push(self.tag[0]);
        out.push(self.tag[1]);
        out.push(self.tag[2]);
        out.push(self.tag[3]);
        assert(out@ =~= old(out)@ + self.tag@);
        let chunk_type = ChunkType::get_chunk_type(&self.value);
        out.push(chunk_type.to_byte());
        self.value.write(out);
        assert(out@ =~= old(out)@ + chunk_bytes(self@));
    }
}

/// The tag that a key stands for: the bytes of the key, where they are
/// four.
pub open spec fn spec_tag_of_key(key: Seq<char>) -> Option<Seq<u8>> {
    if encode_utf8(key).len() == 4 {
        Some(encode_utf8(key))
    } else {
        None
    }
}

impl Chunk {
    /// A tag as text, for use as a key: its four bytes, with the
    /// replacement character where they are not UTF-8. A tag that is UTF-8,
    /// as every tag of ASCII characters is, is the bytes of its key, so
    /// that `tag_of_key` gives it back.
    pub fn key_of_tag(tag: &[u8; 4]) -> (s: String)
        ensures
            s@ == lossy_text(tag@),
            valid_utf8(tag@) ==> encode_utf8(s@) == tag@,
            valid_utf8(tag@) || is_ascii_bytes(tag@) ==> spec_tag_of_key(s@) == Some(tag@),
    {
        let mut bytes: Vec<u8> = Vec::new();
        bytes.push(tag[0]);
        bytes.push(tag[1]);
        bytes.push(tag[2]);
        bytes.push(tag[3]);
        assert(bytes@ =~= tag@);
        proof {
            if is_ascii_bytes(tag@) {
                lemma_ascii_is_utf8(tag@);
            }
        }
        TableString::new(bytes).to_string_lossy()
    }

    /// The tag of the chunk as text, for use as a key.
    pub fn key(&self) -> (s: String)
        ensures
            s@ == lossy_text(self.tag@),
            valid_utf8(self.tag@) ==> encode_utf8(s@) == self.tag@,
            valid_utf8(self.tag@) || is_ascii_bytes(self.tag@) ==> spec_tag_of_key(s@) == Some(
                self.tag@,
            ),
    {
        Chunk::key_of_tag(&self.tag)
    }

    /// The tag that a key stands for: the bytes of the key, where they are
    /// four.
    pub fn tag_of_key(key: &str) -> (t: Option<[u8; 4]>)
        ensures
            match t {
                Some(tag) => spec_tag_of_key(key@) == Some(tag@),
                None => spec_tag_of_key(key@) is None,
            },
    {
        let bytes = key.as_bytes();
        if bytes.len() != 4 {
            return None;
        }
        let tag: [u8; 4] = [bytes[0], bytes[1], bytes[2], bytes[3]];
        assert(tag@ =~= key.spec_bytes());
        Some(tag)
    }
}

impl Chunks {
    /// Reads a payload from `data` at `pos`: chunks until a tag of four zero
    /// bytes.
    pub fn read(data: &[u8], pos: usize) -> (res: Result<(Chunks, usize), Error>)
        ensures
            agrees(res, spec_parse_chunks(data@, pos as int)),
            res matches Ok((_, p)) ==> pos < p <= data.len(),
            res matches Ok((c, _)) ==> forall|i: int|
                0 <= i < c@.len() ==> !is_zero_tag((#[trigger] c@[i]).tag),
    {
        let ghost s = data@;
        let mut acc: Vec<Chunk> = Vec::new();
        let mut p: usize = pos;
        proof {
            lemma_views_empty(acc@);
            match spec_parse_chunks(s, pos as int) {
                Ok((vs, r)) => {
                    assert(Seq::<ChunkModel>::empty() + vs =~= vs);
                },
                Err(_) => {},
            }
        }
        loop
            invariant
                s == data@,
                pos <= p,
                spec_parse_chunks(s, pos as int) == with_prefix(
                    views(acc@),
                    spec_parse_chunks(s, p as int),
                ),
                forall|i: int| 0 <= i < acc@.len() ==> !is_zero_tag((#[trigger] views(acc@)[i]).tag),
            decreases data.len() - p,
        {
            if p > data.len() || data.len() - p < 4 {
                return Err(Error::Truncated);
            }
            let ghost t = s.subrange(p as int, p + 4);
            assert(t[0] == s[p as int] && t[1] == s[p + 1] && t[2] == s[p + 2] && t[3] == s[p + 3]);
            if data[p] == 0 && data[p + 1] == 0 && data[p + 2] == 0 && data[p + 3] == 0 {
                proof {
                    lemma_with_prefix_done(views(acc@), p + 4);
                }
                return Ok((Chunks { chunks: acc }, p + 4));
            }
            match Chunk::read(data, p) {
                Err(e) => {
                    return Err(e);
                },
                Ok((c, q)) => {
                    proof {
                        lemma_with_prefix_push(views(acc@), c@, spec_parse_chunks(s, q as int));
                        lemma_views_push(acc@, c);
                        assert(c@.tag == t);
                    }
                    acc.push(c);
                    p = q;
                },
            }
        }
    }

    /// Whether the chunks can be written, and if not, why.
    pub fn check(&self) -> (res: Result<(), Error>)
        ensures
            res == spec_check_chunks(self@),
    {
        check_chunks(&self.chunks)
    }

    /// Appends the payload to `out`: the chunks, then a tag of four zero
    /// bytes.
    pub fn write(&self, out: &mut Vec<u8>)
        requires
            spec_check_chunks(self@) is Ok,
        ensures
            final(out)@ == old(out)@ + payload_bytes(self@),
    {
        write_chunks(&self.chunks, out)
    }
}

/// Whether the chunks can be written, and if not, why.
pub fn check_chunks(chunks: &Vec<Chunk>) -> (res: Result<(), Error>)
    ensures
        res == spec_check_chunks(views(chunks@)),
{
    let ghost checks = chunks_checks(views(chunks@));
    let mut i: usize = 0;
    while i < chunks.len()
        invariant
            i <= chunks.len(),
            checks == chunks_checks(views(chunks@)),
            forall|k: int| 0 <= k < i ==> (#[trigger] checks[k]) is Ok,
        decreases chunks.len() - i,
    {
        assert(checks[i as int] == spec_check_chunk(chunks@[i as int]@));
        match chunks[i].check() {
            Err(e) => {
                proof {
                    lemma_first_error(checks, i as int);
                }
                return Err(e);
            },
            Ok(_) => {},
        }
        i = i + 1;
    }
    proof {
        lemma_first_error(checks, i as int);
    }
    Ok(())
}

/// Appends a payload to `out`: the chunks, then a tag of four zero bytes.
pub fn write_chunks(chunks: &Vec<Chunk>, out: &mut Vec<u8>)
    requires
        spec_check_chunks(views(chunks@)) is Ok,
    ensures
        final(out)@ == old(out)@ + payload_bytes(views(chunks@)),
{
    let ghost ms = views(chunks@);
    let ghost enc = chunks_encs(ms);
    let ghost checks = chunks_checks(ms);
    proof {
        lemma_first_error(checks, 0);
        lemma_concat_take(enc, 0);
    }
    let mut i: usize = 0;
    while i < chunks.len()
        invariant
            i <= chunks.len(),
            ms == views(chunks@),
            enc == chunks_encs(ms),
            checks == chunks_checks(ms),
            forall|k: int| 0 <= k < checks.len() ==> (#[trigger] checks[k]) is Ok,
            out@ == old(out)@ + concat(enc.take(i as int)),
        decreases chunks.len() - i,
    {
        proof {
            lemma_concat_take(enc, i as int);
            assert(checks[i as int] is Ok);
            assert(ms[i as int] == chunks@[i as int]@);
        }
        chunks[i].write(out);
        i = i + 1;
        assert(out@ =~= old(out)@ + concat(enc.take(i as int)));
    }
    proof {
        lemma_concat_take(enc, i as int);
    }
    out.push(0u8);
    out.push(0u8);
    out.push(0u8);
    out.push(0u8);
    assert(out@ =~= old(out)@ + payload_bytes(ms));
}

/// A payload that was read holds no chunk with a tag of four zero bytes,
/// and every tag is four bytes long.
pub proof fn lemma_parsed_chunks(s: Seq<u8>, pos: int, chunks: Seq<ChunkModel>, q: int)
    requires
        spec_parse_chunks(s, pos) == Ok::<(Seq<ChunkModel>, int), Error>((chunks, q)),
    ensures
        forall|i: int|
            0 <= i < chunks.len() ==> !is_zero_tag((#[trigger] chunks[i]).tag) && chunks[i].tag.len()
                == 4,
    decreases s.len() - pos,
{
    if !is_zero_tag(s.subrange(pos, pos + 4)) {
        let (c, p) = spec_parse_chunk(s, pos).unwrap();
        let (rest, r) = spec_parse_chunks(s, p).unwrap();
        lemma_parsed_chunks(s, p, rest, r);
        assert(chunks =~= seq![c] + rest);
        assert forall|i: int| 0 <= i < chunks.len() implies !is_zero_tag(
            (#[trigger] chunks[i]).tag,
        ) && chunks[i].tag.len() == 4 by {
            if i > 0 {
                assert(chunks[i] == rest[i - 1]);
            }
        }
    }
}

/// Wherever the head of a table that can be written stands, the gamma in
/// front of the schema and the schema are read back.
proof fn lemma_table_head_round_trip(schema: Seq<PropertyModel>, s: Seq<u8>, pos: int)
    requires
        spec_check_table_head(schema) is Ok,
        schema_ok(schema),
        has_at(s, pos, table_head_bytes(schema)),
    ensures
        spec_parse_gamma(s, pos) is Ok,
        spec_parse_schema(
            s,
            spec_parse_gamma(s, pos).unwrap().1,
        ) == Ok::<(Seq<PropertyModel>, int), Error>((schema, pos + table_head_bytes(schema).len())),
{
    let n = (schema_len(schema) + 1) as u32;
    lemma_has_at_split(s, pos, gamma_bytes(n), schema_bytes(schema));
    lemma_gamma_parse_at(s, pos, n);
    lemma_gamma_bytes_len(n);
    lemma_schema_round_trip(schema, s, pos + spec_gamma_length(n));
    lemma_header_of(schema);
    lemma_header_bytes_len(header_of(schema));
}

/// A schema that passes the check is well formed.
pub proof fn lemma_checked_schema(schema: Seq<PropertyModel>)
    requires
        spec_check_table_head(schema) is Ok,
        shape_ok(schema),
    ensures
        schema_ok(schema),
{
    lemma_schema_ok_model(schema);
}

/// Wherever the size bytes and the payload of a RIFF chunk stand, reading
/// them under the chunk's shape byte gives the payload back.
proof fn lemma_riff_round_trip(d: Seq<u8>, s: Seq<u8>, pos: int)
    requires
        d.len() < 0x1000_0000,
        has_at(s, pos, riff_size_bytes(d.len()) + d),
    ensures
        spec_parse_chunk_value(s, pos, shape_byte(ChunkValueModel::Riff(d))) == Ok::<
            (ChunkValueModel, int),
            Error,
        >((ChunkValueModel::Riff(d), pos + 3 + d.len())),
{
    let len = d.len();
    let v = ChunkValueModel::Riff(d);
    lemma_u32_parts(len as u32);
    let head = riff_size_bytes(len);
    lemma_has_at_split(s, pos, head, d);
    lemma_has_at_index(s, pos, head, 0);
    lemma_has_at_index(s, pos, head, 1);
    lemma_has_at_index(s, pos, head, 2);
    let hi = len as int / 0x100_0000;
    assert(shape_high(v) == hi);
    assert(shape_byte(v) == (hi * 16) as u8);
    assert(shape_byte(v) % 16 == 0);
    assert(shape_byte(v) as int / 16 == hi);
    assert(s[pos] == (len / 0x1_0000 % 0x100) as u8);
    assert(s[pos + 1] == (len / 0x100 % 0x100) as u8);
    assert(s[pos + 2] == (len % 0x100) as u8);
    assert(riff_size_at(s, pos, hi) == len);
}

/// Wherever the head and the rows of a table stand, reading them under the
/// shape byte of a table gives the table back.
proof fn lemma_table_round_trip(
    schema: Seq<PropertyModel>,
    rows: Seq<RowModel>,
    s: Seq<u8>,
    pos: int,
)
    requires
        spec_check_value(ChunkValueModel::Table(schema, rows)) is Ok,
        shape_ok(schema),
        has_at(s, pos, value_body_bytes(ChunkValueModel::Table(schema, rows))),
    ensures
        spec_parse_chunk_value(s, pos, 3u8) == Ok::<(ChunkValueModel, int), Error>(
            (
                ChunkValueModel::Table(schema, rows),
                pos + value_body_bytes(ChunkValueModel::Table(schema, rows)).len(),
            ),
        ),
{
    lemma_checked_schema(schema);
    lemma_has_at_split(s, pos, table_head_bytes(schema), rows_bytes::<ChTableElement>(rows));
    lemma_table_head_round_trip(schema, s, pos);
    lemma_rows_round_trip::<ChTableElement>(rows, schema, s, pos + table_head_bytes(schema).len());
}

/// Wherever the head and the rows of a sparse table stand, reading them
/// under the shape byte of a sparse table gives the table back.
proof fn lemma_sparse_table_round_trip(
    schema: Seq<PropertyModel>,
    rows: Seq<SparseRowModel>,
    s: Seq<u8>,
    pos: int,
)
    requires
        spec_check_value(ChunkValueModel::SparseTable(schema, rows)) is Ok,
        shape_ok(schema),
        has_at(s, pos, value_body_bytes(ChunkValueModel::SparseTable(schema, rows))),
    ensures
        spec_parse_chunk_value(s, pos, 4u8) == Ok::<(ChunkValueModel, int), Error>(
            (
                ChunkValueModel::SparseTable(schema, rows),
                pos + value_body_bytes(ChunkValueModel::SparseTable(schema, rows)).len(),
            ),
        ),
{
    lemma_checked_schema(schema);
    lemma_has_at_split(s, pos, table_head_bytes(schema), rows_bytes::<ChSparseTableElement>(rows));
    lemma_table_head_round_trip(schema, s, pos);
    lemma_rows_round_trip::<ChSparseTableElement>(
        rows,
        schema,
        s,
        pos + table_head_bytes(schema).len(),
    );
}

/// Wherever what follows the shape byte of a value stands, reading it under
/// that shape byte gives the value back and stops right behind it, provided
/// the value can be written.
pub proof fn lemma_chunk_value_round_trip(v: ChunkValueModel, s: Seq<u8>, pos: int)
    requires
        spec_check_value(v) is Ok,
        value_wf(v),
        has_at(s, pos, value_body_bytes(v)),
    ensures
        spec_parse_chunk_value(s, pos, shape_byte(v)) == Ok::<(ChunkValueModel, int), Error>(
            (v, pos + value_body_bytes(v).len()),
        ),
{
    match v {
        ChunkValueModel::Riff(d) => {
            lemma_riff_round_trip(d, s, pos);
        },
        ChunkValueModel::Array(rows) => {
            lemma_rows_round_trip::<ChArrayElement>(rows, Seq::empty(), s, pos);
        },
        ChunkValueModel::SparseArray(rows) => {
            lemma_rows_round_trip::<ChSparseArrayElement>(rows, Seq::empty(), s, pos);
        },
        ChunkValueModel::Table(schema, rows) => {
            lemma_table_round_trip(schema, rows, s, pos);
        },
        ChunkValueModel::SparseTable(schema, rows) => {
            lemma_sparse_table_round_trip(schema, rows, s, pos);
        },
    }
}

/// The schema of a table is built as schemas are: a sub-schema under the
/// `Struct` properties only. Every value held in memory is so.
pub open spec fn value_wf(v: ChunkValueModel) -> bool {
    match v {
        ChunkValueModel::Table(schema, _) => shape_ok(schema),
        ChunkValueModel::SparseTable(schema, _) => shape_ok(schema),
        _ => true,
    }
}

/// A chunk has a tag of four bytes and a value that is built as values are.
pub open spec fn chunk_wf(c: ChunkModel) -> bool {
    c.tag.len() == 4 && value_wf(c.value)
}

/// Every chunk is built as chunks are.
pub open spec fn chunks_wf(chunks: Seq<ChunkModel>) -> bool {
    forall|i: int| 0 <= i < chunks.len() ==> chunk_wf(#[trigger] chunks[i])
}

/// Wherever the wire form of a chunk stands, reading a chunk there gives
/// the chunk back and stops right behind it, provided the chunk can be
/// written.
pub proof fn lemma_chunk_round_trip(c: ChunkModel, s: Seq<u8>, pos: int)
    requires
        spec_check_chunk(c) is Ok,
        chunk_wf(c),
        has_at(s, pos, chunk_bytes(c)),
    ensures
        spec_parse_chunk(s, pos) == Ok::<(ChunkModel, int), Error>(
            (c, pos + chunk_bytes(c).len()),
        ),
        !is_zero_tag(s.subrange(pos, pos + 4)),
        chunk_bytes(c).len() >= 5,
{
    let body = value_body_bytes(c.value);
    let head = c.tag + seq![shape_byte(c.value)];
    assert(chunk_bytes(c) =~= head + body);
    lemma_has_at_split(s, pos, head, body);
    lemma_has_at_split(s, pos, c.tag, seq![shape_byte(c.value)]);
    lemma_has_at_index(s, pos + 4, seq![shape_byte(c.value)], 0);
    assert(s.subrange(pos, pos + 4) =~= c.tag);
    lemma_chunk_value_round_trip(c.value, s, pos + 5);
}

/// Reading back chunks that stand one after the other with the terminator
/// behind them.
proof fn lemma_chunks_parse(chunks: Seq<ChunkModel>, enc: Seq<Seq<u8>>, s: Seq<u8>, pos: int)
    requires
        enc.len() == chunks.len(),
        has_at(s, pos, concat(enc) + seq![0u8, 0u8, 0u8, 0u8]),
        forall|i: int| 0 <= i < enc.len() ==> (#[trigger] enc[i]).len() >= 5,
        forall|i: int, p: int|
            0 <= i < chunks.len() && #[trigger] has_at(s, p, enc[i]) ==> spec_parse_chunk(s, p)
                == Ok::<(ChunkModel, int), Error>((chunks[i], p + enc[i].len())) && !is_zero_tag(
                s.subrange(p, p + 4),
            ),
    ensures
        spec_parse_chunks(s, pos) == Ok::<(Seq<ChunkModel>, int), Error>(
            (chunks, pos + concat(enc).len() + 4),
        ),
    decreases chunks.len(),
{
    let end = seq![0u8, 0u8, 0u8, 0u8];
    if chunks.len() == 0 {
        assert(chunks =~= Seq::<ChunkModel>::empty());
        assert(enc =~= Seq::<Seq<u8>>::empty());
        lemma_concat_take(enc, 0);
        assert(concat(enc) + end =~= end);
        assert(s.subrange(pos, pos + 4) =~= end);
    } else {
        lemma_concat_first(enc);
        let rest = concat(enc.drop_first());
        assert(concat(enc) + end =~= enc[0] + (rest + end));
        lemma_has_at_split(s, pos, enc[0], rest + end);
        assert(has_at(s, pos, enc[0]));
        let q = pos + enc[0].len();
        let chunks1 = chunks.drop_first();
        let enc1 = enc.drop_first();
        assert forall|i: int| 0 <= i < enc1.len() implies (#[trigger] enc1[i]).len() >= 5 by {
            assert(enc1[i] == enc[i + 1]);
        }
        assert forall|i: int, p: int|
            0 <= i < chunks1.len() && #[trigger] has_at(s, p, enc1[i]) implies spec_parse_chunk(
            s,
            p,
        ) == Ok::<(ChunkModel, int), Error>((chunks1[i], p + enc1[i].len())) && !is_zero_tag(
            s.subrange(p, p + 4),
        ) by {
            assert(enc1[i] == enc[i + 1]);
            assert(has_at(s, p, enc[i + 1]));
        }
        lemma_chunks_parse(chunks1, enc1, s, q);
        assert(seq![chunks[0]] + chunks1 =~= chunks);
    }
}

/// Wherever a payload stands, reading a payload there gives its chunks back
/// and stops right behind the terminator, provided the chunks can be
/// written.
pub proof fn lemma_payload_round_trip(chunks: Seq<ChunkModel>, s: Seq<u8>, pos: int)
    requires
        spec_check_chunks(chunks) is Ok,
        chunks_wf(chunks),
        has_at(s, pos, payload_bytes(chunks)),
    ensures
        spec_parse_chunks(s, pos) == Ok::<(Seq<ChunkModel>, int), Error>(
            (chunks, pos + payload_bytes(chunks).len()),
        ),
{
    let enc = chunks_encs(chunks);
    let checks = chunks_checks(chunks);
    lemma_first_error(checks, 0);
    assert forall|i: int| 0 <= i < enc.len() implies (#[trigger] enc[i]).len() >= 5 by {
        assert(checks[i] is Ok);
        assert(chunk_wf(chunks[i]));
        let b = enc[i];
        assert(has_at(b, 0, b)) by {
            assert(b.subrange(0, b.len() as int) =~= b);
        }
        lemma_chunk_round_trip(chunks[i], b, 0);
    }
    assert forall|i: int, p: int|
        0 <= i < chunks.len() && #[trigger] has_at(s, p, enc[i]) implies spec_parse_chunk(s, p)
        == Ok::<(ChunkModel, int), Error>((chunks[i], p + enc[i].len())) && !is_zero_tag(
        s.subrange(p, p + 4),
    ) by {
        assert(checks[i] is Ok);
        assert(chunk_wf(chunks[i]));
        lemma_chunk_round_trip(chunks[i], s, p);
    }
    lemma_chunks_parse(chunks, enc, s, pos);
}

/// A value that was read can be written, provided the input is shorter
/// than `u32::MAX` bytes, so that the length of a schema fits 32 bits; it is
/// built as values are and stands inside the input.
pub proof fn lemma_parsed_chunk_value(s: Seq<u8>, pos: int, shape: u8, v: ChunkValueModel, q: int)
    requires
        s.len() < u32::MAX,
        spec_parse_chunk_value(s, pos, shape) == Ok::<(ChunkValueModel, int), Error>((v, q)),
    ensures
        spec_check_value(v) is Ok,
        value_wf(v),
        q <= s.len(),
{
    let kind = shape % 16;
    if kind == 0 {
    } else if kind == 1 {
        lemma_parsed_rows::<ChArrayElement>(
            s,
            pos,
            Seq::empty(),
            v->Array_0,
            q,
        );
    } else if kind == 2 {
        lemma_parsed_rows::<ChSparseArrayElement>(
            s,
            pos,
            Seq::empty(),
            v->SparseArray_0,
            q,
        );
    } else if kind == 3 {
        let (n, p) = spec_parse_gamma(s, pos).unwrap();
        let (schema, r) = spec_parse_schema(s, p).unwrap();
        lemma_parsed_schema(s, p, schema, r);
        lemma_parsed_rows::<ChTableElement>(s, r, schema, v->Table_1, q);
    } else {
        let (n, p) = spec_parse_gamma(s, pos).unwrap();
        let (schema, r) = spec_parse_schema(s, p).unwrap();
        lemma_parsed_schema(s, p, schema, r);
        lemma_parsed_rows::<ChSparseTableElement>(
            s,
            r,
            schema,
            v->SparseTable_1,
            q,
        );
    }
}

/// Chunks that were read can be written, provided the input is shorter than
/// `u32::MAX` bytes; they are built as chunks are.
pub proof fn lemma_parsed_chunks_check(s: Seq<u8>, pos: int, chunks: Seq<ChunkModel>, q: int)
    requires
        s.len() < u32::MAX,
        spec_parse_chunks(s, pos) == Ok::<(Seq<ChunkModel>, int), Error>((chunks, q)),
    ensures
        spec_check_chunks(chunks) is Ok,
        chunks_wf(chunks),
    decreases s.len() - pos,
{
    let checks = chunks_checks(chunks);
    if !is_zero_tag(s.subrange(pos, pos + 4)) {
        let (c, p) = spec_parse_chunk(s, pos).unwrap();
        lemma_parsed_chunk_value(s, pos + 5, s[pos + 4], c.value, p);
        let (rest, r) = spec_parse_chunks(s, p).unwrap();
        lemma_parsed_chunks_check(s, p, rest, r);
        assert(chunks =~= seq![c] + rest);
        lemma_first_error(chunks_checks(rest), 0);
        assert forall|k: int| 0 <= k < chunks.len() implies (#[trigger] checks[k]) is Ok
            && chunk_wf(chunks[k]) by {
            if k > 0 {
                assert(chunks[k] == rest[k - 1]);
                assert(chunks_checks(rest)[k - 1] is Ok);
                assert(chunk_wf(rest[k - 1]));
            }
        }
        lemma_first_error(checks, checks.len() as int);
    } else {
        lemma_first_error(checks, 0);
    }
}

} // verus!
