use crate::chtable::parsed_schema::lemma_parsed_schema;
use crate::chtable::property::spec_parse_schema;
use crate::error::Error;
use crate::gamma::spec_parse_gamma;
use crate::save::chunk::{ChunkValueModel, spec_parse_chunk_value};
use crate::save::container::{
    CompressionType, encodes, head_bytes, magic_bytes, OuterModel, plain_bytes, SaveModel,
    spec_check_save, spec_chunk_reader, spec_decode, spec_decompress, spec_parse_outer, wraps,
};
use crate::save::stream::{
    chunk_wf, ChunkModel, chunks_wf, is_zero_tag, lemma_parsed_chunks, lemma_parsed_chunks_check,
    lemma_payload_round_trip, payload_bytes, spec_check_chunks, spec_parse_chunk,
    spec_parse_chunks, value_wf,
};
use crate::wire::{has_at, lemma_has_at_split, lemma_uint_round_trip, uint_bytes};
use vstd::prelude::*;

verus! {

/// A container is read back: wherever `bytes` is a container around `data`,
/// reading it gives the codec, the version, the two bytes behind it, and
/// `data`.
pub proof fn lemma_outer_round_trip(
    bytes: Seq<u8>,
    c: CompressionType,
    version: u16,
    ignored: u16,
    data: Seq<u8>,
)
    requires
        wraps(bytes, c, version, ignored, data),
    ensures
        spec_parse_outer(bytes) == Ok::<OuterModel, Error>(
            OuterModel { compression: c, version, ignored, data },
        ),
{
    let head = bytes.subrange(0, 8);
    let m = magic_bytes(c);
    let v = uint_bytes(version as int, 2);
    let i = uint_bytes(ignored as int, 2);
    assert(head == (m + v) + i);
    assert(has_at(bytes, 0, (m + v) + i));
    lemma_has_at_split(bytes, 0, m + v, i);
    lemma_has_at_split(bytes, 0, m, v);
    assert(bytes.subrange(0, 4) =~= m);
    lemma_uint_round_trip(bytes, 4, version as int, 2);
    lemma_uint_round_trip(bytes, 6, ignored as int, 2);
}

/// Decoding what encoding gave: wherever `bytes` is a wire form of a save
/// that can be written, packed or not, reading `bytes` gives the save back.
/// So reading, writing and reading again gives what the first reading gave.
pub proof fn lemma_decode_encoded(save: SaveModel, bytes: Seq<u8>)
    requires
        spec_check_save(save) is Ok,
        chunks_wf(save.chunks),
        encodes(save, bytes),
    ensures
        spec_decode(bytes) == Ok::<SaveModel, Error>(save),
{
    let payload = payload_bytes(save.chunks);
    lemma_outer_round_trip(bytes, save.compression, save.version, save.ignored, payload);
    assert(has_at(payload, 0, payload)) by {
        assert(payload.subrange(0, payload.len() as int) =~= payload);
    }
    lemma_payload_round_trip(save.chunks, payload, 0);
}

/// The wire form of a save that is not packed is one of its wire forms.
pub proof fn lemma_plain_encodes(save: SaveModel)
    requires
        save.compression == CompressionType::OTTN,
    ensures
        encodes(save, plain_bytes(save)),
{
    let head = head_bytes(CompressionType::OTTN, save.version, save.ignored);
    let b = plain_bytes(save);
    assert(head.len() == 8);
    assert(b.subrange(0, 8) =~= head);
    assert(b.skip(8) =~= payload_bytes(save.chunks));
}

/// Round trip of what is not packed: the wire form of a save that can be
/// written without packing reads back as that save. Since writing a save
/// that is not packed gives this wire form byte for byte, bytes that are
/// such a wire form are what reading and then writing them gives.
pub proof fn lemma_plain_round_trip(save: SaveModel)
    requires
        spec_check_save(save) is Ok,
        chunks_wf(save.chunks),
        save.compression == CompressionType::OTTN,
    ensures
        spec_decode(plain_bytes(save)) == Ok::<SaveModel, Error>(save),
{
    lemma_plain_encodes(save);
    lemma_decode_encoded(save, plain_bytes(save));
}

/// What reading gives can be written: a save that was read from bytes
/// whose unpacked payload is shorter than `u32::MAX` bytes passes the check
/// of the writer.
pub proof fn lemma_decoded_checks(bytes: Seq<u8>, save: SaveModel)
    requires
        spec_decode(bytes) == Ok::<SaveModel, Error>(save),
        spec_parse_outer(bytes).unwrap().data.len() < u32::MAX,
    ensures
        spec_check_save(save) is Ok,
        chunks_wf(save.chunks),
{
    let o = spec_parse_outer(bytes).unwrap();
    let (chunks, q) = spec_parse_chunks(o.data, 0).unwrap();
    lemma_parsed_chunks_check(o.data, 0, chunks, q);
}

/// Reading, writing and reading again: where `bytes` read as `save` and
/// their unpacked payload is shorter than `u32::MAX` bytes, every wire form
/// of `save`, packed or not, reads as `save` again.
pub proof fn lemma_read_write_read(bytes: Seq<u8>, save: SaveModel, again: Seq<u8>)
    requires
        spec_decode(bytes) == Ok::<SaveModel, Error>(save),
        spec_parse_outer(bytes).unwrap().data.len() < u32::MAX,
        encodes(save, again),
    ensures
        spec_decode(again) == Ok::<SaveModel, Error>(save),
{
    lemma_decoded_checks(bytes, save);
    lemma_decode_encoded(save, again);
}

/// What was read survives being written and read again: where chunks were
/// read from bytes whose unpacked payload is shorter than `u32::MAX` bytes,
/// and `packed` unpacks to the payload of chunks with the same views, as
/// what `chunk_writer` gives for them does, reading `packed` gives the
/// chunks that were read first. So chunks of every shape that go out as a
/// map keyed by tag and come back with the same tags and values are read
/// again as they were.
pub proof fn lemma_chunks_survive(
    c: CompressionType,
    blob: Seq<u8>,
    chunks: Seq<ChunkModel>,
    packed: Seq<u8>,
)
    requires
        spec_chunk_reader(c, blob) == Ok::<Seq<ChunkModel>, Error>(chunks),
        spec_decompress(c, blob).unwrap().len() < u32::MAX,
        spec_decompress(c, packed) == Ok::<Seq<u8>, Error>(payload_bytes(chunks)),
    ensures
        spec_check_chunks(chunks) is Ok,
        spec_chunk_reader(c, packed) == Ok::<Seq<ChunkModel>, Error>(chunks),
{
    let d = spec_decompress(c, blob).unwrap();
    let (cs, q) = spec_parse_chunks(d, 0).unwrap();
    lemma_parsed_chunks_check(d, 0, chunks, q);
    let payload = payload_bytes(chunks);
    assert(has_at(payload, 0, payload)) by {
        assert(payload.subrange(0, payload.len() as int) =~= payload);
    }
    lemma_payload_round_trip(chunks, payload, 0);
}

/// `bytes` is what the writer gives for some save that is not packed: every
/// gamma in its shortest form, every size as the writer computes it, and
/// nothing behind the terminator.
pub open spec fn written_plain(bytes: Seq<u8>) -> bool {
    exists|save: SaveModel|
        spec_check_save(save) is Ok && chunks_wf(save.chunks) && save.compression
            == CompressionType::OTTN && #[trigger] plain_bytes(save) == bytes
}

/// Round trip of the chunk stream: bytes that are not packed and are what
/// the writer gives for some save are, byte for byte, what the writer gives
/// for the save that they read as.
pub proof fn lemma_reencode_plain(bytes: Seq<u8>)
    requires
        written_plain(bytes),
    ensures
        spec_decode(bytes) matches Ok(save) && spec_check_save(save) is Ok && save.compression
            == CompressionType::OTTN && plain_bytes(save) == bytes,
{
    let save = choose|save: SaveModel|
        spec_check_save(save) is Ok && chunks_wf(save.chunks) && save.compression
            == CompressionType::OTTN && #[trigger] plain_bytes(save) == bytes;
    lemma_plain_round_trip(save);
}

/// Only such bytes are: where bytes that are not packed read as a save and
/// are what the writer gives for it, they are what the writer gives for
/// some save. So the bytes that reading and writing give back unchanged are
/// exactly those that the writer can give.
pub proof fn lemma_reencoded_is_written(bytes: Seq<u8>, save: SaveModel)
    requires
        spec_decode(bytes) == Ok::<SaveModel, Error>(save),
        save.compression == CompressionType::OTTN,
        spec_check_save(save) is Ok,
        plain_bytes(save) == bytes,
    ensures
        written_plain(bytes),
{
    let o = spec_parse_outer(bytes).unwrap();
    let (chunks, q) = spec_parse_chunks(o.data, 0).unwrap();
    lemma_parsed_chunks(o.data, 0, chunks, q);
    lemma_chunks_built(o.data, 0, chunks, q);
}

/// Chunks that were read are built as chunks are.
proof fn lemma_chunks_built(s: Seq<u8>, pos: int, chunks: Seq<ChunkModel>, q: int)
    requires
        spec_parse_chunks(s, pos) == Ok::<(Seq<ChunkModel>, int), Error>(
            (chunks, q),
        ),
    ensures
        chunks_wf(chunks),
    decreases s.len() - pos,
{
    if !is_zero_tag(s.subrange(pos, pos + 4)) {
        let (c, p) = spec_parse_chunk(s, pos).unwrap();
        lemma_value_built(s, pos + 5, s[pos + 4], c.value, p);
        let (rest, r) = spec_parse_chunks(s, p).unwrap();
        lemma_chunks_built(s, p, rest, r);
        assert(chunks =~= seq![c] + rest);
        assert forall|k: int| 0 <= k < chunks.len() implies chunk_wf(
            #[trigger] chunks[k],
        ) by {
            if k > 0 {
                assert(chunks[k] == rest[k - 1]);
            }
        }
    }
}

/// A value that was read is built as values are.
proof fn lemma_value_built(
    s: Seq<u8>,
    pos: int,
    shape: u8,
    v: ChunkValueModel,
    q: int,
)
    requires
        spec_parse_chunk_value(s, pos, shape) == Ok::<
            (ChunkValueModel, int),
            Error,
        >((v, q)),
    ensures
        value_wf(v),
{
    let kind = shape % 16;
    if kind == 3 || kind == 4 {
        let (n, p) = spec_parse_gamma(s, pos).unwrap();
        let (schema, r) = spec_parse_schema(s, p).unwrap();
        lemma_parsed_schema(s, p, schema, r);
    }
}

} // verus!
