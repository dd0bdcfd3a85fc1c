use crate::error::Error;
use crate::repeat::views;
use crate::save::canonical::{
    canonical_plain, lemma_canonical_is_written, lemma_written_is_canonical,
};
use crate::save::chunk::ChunkValue;
use crate::save::codec::{
    codec_error, xz_decode, xz_decoded, xz_encode, xz_encoded, zstd_decode, zstd_decoded,
    zstd_encode, zstd_encoded,
};
use crate::save::laws::{
    lemma_decoded_checks, lemma_reencode_plain, lemma_reencoded_is_written, written_plain,
};
use crate::save::stream::{
    check_chunks, Chunk, ChunkModel, Chunks, is_zero_tag, payload_bytes, spec_check_chunks,
    spec_parse_chunks, write_chunks,
};
use crate::wire::{bytes_eq, put_bytes, uint_at, uint_bytes, WireInt};
use vstd::prelude::*;
use vstd::slice::slice_subrange;

verus! {

/// How the payload of a save is packed. The four letters of each name are
/// the magic at the start of the file.
#[derive(Debug, Clone, Copy, PartialEq, Eq, Hash, Structural)]
pub enum CompressionType {
    /// LZO: not handled.
    OTTD,
    /// Not packed.
    OTTN,
    /// zlib: not handled.
    OTTZ,
    /// LZMA.
    OTTX,
    /// zstd.
    OTTS,
}

/// The fourth letter of the magic.
pub open spec fn magic_letter(c: CompressionType) -> u8 {
    match c {
        CompressionType::OTTD => 0x44,
        CompressionType::OTTN => 0x4E,
        CompressionType::OTTZ => 0x5A,
        CompressionType::OTTX => 0x58,
        CompressionType::OTTS => 0x53,
    }
}

/// The magic: `O`, `T`, `T` and the letter of the codec.
pub open spec fn magic_bytes(c: CompressionType) -> Seq<u8> {
    seq![0x4Fu8, 0x54u8, 0x54u8, magic_letter(c)]
}

/// The codec that four bytes name, if any.
pub open spec fn spec_compression(m: Seq<u8>) -> Option<CompressionType> {
    if m[0] != 0x4F || m[1] != 0x54 || m[2] != 0x54 {
        None
    } else if m[3] == 0x44 {
        Some(CompressionType::OTTD)
    } else if m[3] == 0x4E {
        Some(CompressionType::OTTN)
    } else if m[3] == 0x5A {
        Some(CompressionType::OTTZ)
    } else if m[3] == 0x58 {
        Some(CompressionType::OTTX)
    } else if m[3] == 0x53 {
        Some(CompressionType::OTTS)
    } else {
        None
    }
}

/// Whether the codec is handled.
pub open spec fn supported(c: CompressionType) -> bool {
    c != CompressionType::OTTD && c != CompressionType::OTTZ
}

/// What unpacking `blob` gives: `UnsupportedCompression` for LZO and zlib,
/// `CompressionFailure` where the decoder reports an error.
pub open spec fn spec_decompress(c: CompressionType, blob: Seq<u8>) -> Result<Seq<u8>, Error> {
    match c {
        CompressionType::OTTN => Ok(blob),
        CompressionType::OTTX => match xz_decoded(blob) {
            Some(d) => Ok(d),
            None => Err(Error::CompressionFailure),
        },
        CompressionType::OTTS => match zstd_decoded(blob) {
            Some(d) => Ok(d),
            None => Err(Error::CompressionFailure),
        },
        _ => Err(Error::UnsupportedCompression),
    }
}

/// The LZMA preset that the writer packs with.
pub const LZMA_PRESET: u32 = 2;

/// The zstd level that the writer packs with: 0, which asks zstd for its
/// default level.
pub const ZSTD_LEVEL: i32 = 0;

/// What packing `blob` gives: `blob` itself where nothing is packed, what
/// the LZMA encoder makes of it at preset 2, what the zstd encoder makes of
/// it at its default level; `UnsupportedCompression` for LZO and zlib,
/// `CompressionFailure` where the encoder reports an error.
pub open spec fn spec_compress(c: CompressionType, blob: Seq<u8>) -> Result<Seq<u8>, Error> {
    match c {
        CompressionType::OTTN => Ok(blob),
        CompressionType::OTTX => match xz_encoded(blob, LZMA_PRESET) {
            Some(d) => Ok(d),
            None => Err(Error::CompressionFailure),
        },
        CompressionType::OTTS => match zstd_encoded(blob, ZSTD_LEVEL) {
            Some(d) => Ok(d),
            None => Err(Error::CompressionFailure),
        },
        _ => Err(Error::UnsupportedCompression),
    }
}

/// The bytes `res` are the bytes that `model` gives, or the error is the
/// same.
pub open spec fn gives(res: Result<Vec<u8>, Error>, model: Result<Seq<u8>, Error>) -> bool {
    match model {
        Ok(d) => res matches Ok(v) && v@ == d,
        Err(e) => res matches Err(f) && e == f,
    }
}

/// A save with its payload unpacked and not yet taken apart.
pub struct OuterModel {
    pub compression: CompressionType,
    pub version: u16,
    pub ignored: u16,
    pub data: Seq<u8>,
}

/// A save.
pub struct SaveModel {
    pub compression: CompressionType,
    pub version: u16,
    pub ignored: u16,
    pub chunks: Seq<ChunkModel>,
}

/// A save whose payload is unpacked and not yet taken apart.
#[derive(Debug, Clone, PartialEq, Eq)]
pub struct OuterSave {
    pub compression_type: CompressionType,
    pub version: u16,
    pub ignore: u16,
    pub data: Vec<u8>,
}

impl View for OuterSave {
    type V = OuterModel;

    open spec fn view(&self) -> OuterModel {
        OuterModel {
            compression: self.compression_type,
            version: self.version,
            ignored: self.ignore,
            data: self.data@,
        }
    }
}

/// A save: how it is packed, its version, the two bytes behind the version,
/// which are kept as they are, and its chunks.
#[derive(Debug, PartialEq, Eq)]
pub struct Save {
    pub compression_type: CompressionType,
    pub version: u16,
    pub ignore: u16,
    pub chunks: Vec<Chunk>,
}

impl View for Save {
    type V = SaveModel;

    open spec fn view(&self) -> SaveModel {
        SaveModel {
            compression: self.compression_type,
            version: self.version,
            ignored: self.ignore,
            chunks: views(self.chunks@),
        }
    }
}

/// The eight bytes at the start of a save: magic, version, and the two
/// bytes behind it.
pub open spec fn head_bytes(c: CompressionType, version: u16, ignored: u16) -> Seq<u8> {
    magic_bytes(c) + uint_bytes(version as int, 2) + uint_bytes(ignored as int, 2)
}

/// Reading a save up to its unpacked payload: `Truncated` where the bytes
/// end inside the first eight, `UnsupportedCompression` where the first
/// four name no codec or one that is not handled.
pub open spec fn spec_parse_outer(bytes: Seq<u8>) -> Result<OuterModel, Error> {
    if bytes.len() < 4 {
        Err(Error::Truncated)
    } else {
        match spec_compression(bytes.subrange(0, 4)) {
            None => Err(Error::UnsupportedCompression),
            Some(c) => if bytes.len() < 8 {
                Err(Error::Truncated)
            } else {
                match spec_decompress(c, bytes.skip(8)) {
                    Err(e) => Err(e),
                    Ok(d) => Ok(
                        OuterModel {
                            compression: c,
                            version: uint_at(bytes, 4, 2) as u16,
                            ignored: uint_at(bytes, 6, 2) as u16,
                            data: d,
                        },
                    ),
                }
            },
        }
    }
}

/// Reading a save: the container, then the chunks of the unpacked payload.
pub open spec fn spec_decode(bytes: Seq<u8>) -> Result<SaveModel, Error> {
    match spec_parse_outer(bytes) {
        Err(e) => Err(e),
        Ok(o) => match spec_parse_chunks(o.data, 0) {
            Err(e) => Err(e),
            Ok((chunks, _)) => Ok(
                SaveModel {
                    compression: o.compression,
                    version: o.version,
                    ignored: o.ignored,
                    chunks,
                },
            ),
        },
    }
}

/// Whether a save can be written, and if not, why:
/// `UnsupportedCompression` for LZO and zlib, else the error of the first
/// chunk that cannot be written.
pub open spec fn spec_check_save(save: SaveModel) -> Result<(), Error> {
    if !supported(save.compression) {
        Err(Error::UnsupportedCompression)
    } else {
        spec_check_chunks(save.chunks)
    }
}

/// The container around `data`: the eight bytes of the head, then `data`
/// packed.
pub open spec fn spec_wrap(c: CompressionType, version: u16, ignored: u16, data: Seq<u8>) -> Result<
    Seq<u8>,
    Error,
> {
    match spec_compress(c, data) {
        Err(e) => Err(e),
        Ok(packed) => Ok(head_bytes(c, version, ignored) + packed),
    }
}

/// The chunks and the terminator packed: `UnsupportedCompression` for LZO
/// and zlib, else the error of the first chunk that cannot be written, else
/// the payload packed.
pub open spec fn spec_pack_chunks(chunks: Seq<ChunkModel>, c: CompressionType) -> Result<
    Seq<u8>,
    Error,
> {
    if !supported(c) {
        Err(Error::UnsupportedCompression)
    } else {
        match spec_check_chunks(chunks) {
            Err(e) => Err(e),
            Ok(_) => spec_compress(c, payload_bytes(chunks)),
        }
    }
}

/// Writing a save: the error of its check, else the eight bytes of the
/// head and then its payload packed.
pub open spec fn spec_encode(save: SaveModel) -> Result<Seq<u8>, Error> {
    match spec_pack_chunks(save.chunks, save.compression) {
        Err(e) => Err(e),
        Ok(packed) => Ok(head_bytes(save.compression, save.version, save.ignored) + packed),
    }
}

/// `bytes` is a container around `data`: the eight bytes of the head, then
/// bytes that unpack to `data`.
pub open spec fn wraps(bytes: Seq<u8>, c: CompressionType, version: u16, ignored: u16, data: Seq<u8>) -> bool {
    &&& bytes.len() >= 8
    &&& bytes.subrange(0, 8) == head_bytes(c, version, ignored)
    &&& spec_decompress(c, bytes.skip(8)) == Ok::<Seq<u8>, Error>(data)
}

/// `bytes` is a wire form of the save: a container around its payload.
pub open spec fn encodes(save: SaveModel, bytes: Seq<u8>) -> bool {
    wraps(bytes, save.compression, save.version, save.ignored, payload_bytes(save.chunks))
}

/// What was read from `bytes` passes the check of the writer, provided the
/// unpacked payload of `bytes` is shorter than `u32::MAX` bytes.
pub open spec fn can_be_written(bytes: Seq<u8>, save: SaveModel) -> bool {
    spec_parse_outer(bytes) matches Ok(o) && (o.data.len() < u32::MAX ==> spec_check_save(save)
        is Ok)
}

/// The wire form of a save that is not packed.
pub open spec fn plain_bytes(save: SaveModel) -> Seq<u8> {
    head_bytes(CompressionType::OTTN, save.version, save.ignored) + payload_bytes(save.chunks)
}

impl CompressionType {
    /// The magic of the codec.
    pub fn magic(&self) -> (m: [u8; 4])
        ensures
            m@ == magic_bytes(*self),
    {
        let letter: u8 = match self {
            CompressionType::OTTD => 0x44,
            CompressionType::OTTN => 0x4E,
            CompressionType::OTTZ => 0x5A,
            CompressionType::OTTX => 0x58,
            CompressionType::OTTS => 0x53,
        };
        let m: [u8; 4] = [0x4F, 0x54, 0x54, letter];
        assert(m@ =~= magic_bytes(*self));
        m
    }

    /// The codec that the first four bytes of `data` name, if any.
    pub fn from_magic(data: &[u8]) -> (c: Option<CompressionType>)
        ensures
            data@.len() >= 4 ==> c == spec_compression(data@.subrange(0, 4)),
            data@.len() < 4 ==> c is None,
    {
        if data.len() < 4 {
            return None;
        }
        let ghost m = data@.subrange(0, 4);
        assert(m[0] == data@[0] && m[1] == data@[1] && m[2] == data@[2] && m[3] == data@[3]);
        if data[0] != 0x4F || data[1] != 0x54 || data[2] != 0x54 {
            None
        } else if data[3] == 0x44 {
            Some(CompressionType::OTTD)
        } else if data[3] == 0x4E {
            Some(CompressionType::OTTN)
        } else if data[3] == 0x5A {
            Some(CompressionType::OTTZ)
        } else if data[3] == 0x58 {
            Some(CompressionType::OTTX)
        } else if data[3] == 0x53 {
            Some(CompressionType::OTTS)
        } else {
            None
        }
    }
}

/// Unpacks the payload of a save.
pub fn decompress_save(compression_type: &CompressionType, blob: &[u8]) -> (res: Result<Vec<u8>, Error>)
    ensures
        match spec_decompress(*compression_type, blob@) {
            Ok(d) => res matches Ok(v) && v@ == d,
            Err(e) => res matches Err(f) && e == f,
        },
{
    match compression_type {
        CompressionType::OTTN => {
            let mut out: Vec<u8> = Vec::new();
            put_bytes(blob, &mut out);
            assert(out@ =~= blob@);
            Ok(out)
        },
        CompressionType::OTTX => match xz_decode(blob) {
            Ok(v) => Ok(v),
            Err(e) => Err(codec_error(e)),
        },
        CompressionType::OTTS => match zstd_decode(blob) {
            Ok(v) => Ok(v),
            Err(e) => Err(codec_error(e)),
        },
        _ => Err(Error::UnsupportedCompression),
    }
}

/// Packs the payload of a save: LZMA at preset 2, zstd at its default
/// level. What comes back unpacks to `blob`; what is not packed is `blob`
/// itself.
pub fn compress_save(compression_type: &CompressionType, blob: &[u8]) -> (res: Result<Vec<u8>, Error>)
    ensures
        gives(res, spec_compress(*compression_type, blob@)),
        res matches Ok(v) ==> spec_decompress(*compression_type, v@) == Ok::<Seq<u8>, Error>(
            blob@,
        ),
{
    match compression_type {
        CompressionType::OTTN => {
            let mut out: Vec<u8> = Vec::new();
            put_bytes(blob, &mut out);
            assert(out@ =~= blob@);
            Ok(out)
        },
        CompressionType::OTTX => match xz_encode(blob, LZMA_PRESET) {
            Ok(v) => Ok(v),
            Err(e) => Err(codec_error(e)),
        },
        CompressionType::OTTS => match zstd_encode(blob, ZSTD_LEVEL) {
            Ok(v) => Ok(v),
            Err(e) => Err(codec_error(e)),
        },
        _ => Err(Error::UnsupportedCompression),
    }
}

/// Puts the head of a save and its packed payload together.
pub fn assemble(compression_type: &CompressionType, version: u16, ignore: u16, packed: &[u8]) -> (out:
    Vec<u8>)
    ensures
        out@ == head_bytes(*compression_type, version, ignore) + packed@,
        out@.len() >= 8,
        out@.subrange(0, 8) == head_bytes(*compression_type, version, ignore),
        out@.skip(8) == packed@,
{
    let mut out: Vec<u8> = Vec::new();
    let m = compression_type.magic();
    out.push(m[0]);
    out.push(m[1]);
    out.push(m[2]);
    out.push(m[3]);
    assert(out@ =~= magic_bytes(*compression_type));
    version.write_to(&mut out);
    ignore.write_to(&mut out);
    let ghost head = out@;
    assert(head =~= head_bytes(*compression_type, version, ignore));
    put_bytes(packed, &mut out);
    assert(out@.subrange(0, 8) =~= head);
    assert(out@.skip(8) =~= packed@);
    out
}

impl OuterSave {
    /// Reads a save up to its unpacked payload.
    pub fn read(bytes: &[u8]) -> (res: Result<OuterSave, Error>)
        ensures
            match spec_parse_outer(bytes@) {
                Ok(m) => res matches Ok(o) && o@ == m,
                Err(e) => res matches Err(f) && e == f,
            },
    {
        if bytes.len() < 4 {
            return Err(Error::Truncated);
        }
        let compression_type = match CompressionType::from_magic(bytes) {
            Some(c) => c,
            None => {
                return Err(Error::UnsupportedCompression);
            },
        };
        if bytes.len() < 8 {
            return Err(Error::Truncated);
        }
        let version = u16::read_at(bytes, 4);
        let ignore = u16::read_at(bytes, 6);
        let rest = slice_subrange(bytes, 8, bytes.len());
        assert(rest@ =~= bytes@.skip(8));
        match decompress_save(&compression_type, rest) {
            Ok(data) => Ok(OuterSave { compression_type, version, ignore, data }),
            Err(e) => Err(e),
        }
    }

    /// Packs the payload and puts the head in front. What comes back is a
    /// container around the payload.
    pub fn write(&self) -> (res: Result<Vec<u8>, Error>)
        ensures
            gives(
                res,
                spec_wrap(self.compression_type, self.version, self.ignore, self.data@),
            ),
            res matches Ok(b) ==> wraps(
                b@,
                self.compression_type,
                self.version,
                self.ignore,
                self.data@,
            ),
    {
        match compress_save(&self.compression_type, self.data.as_slice()) {
            Ok(packed) => Ok(
                assemble(&self.compression_type, self.version, self.ignore, packed.as_slice()),
            ),
            Err(e) => Err(e),
        }
    }
}

/// Unpacking a payload and reading its chunks.
pub open spec fn spec_chunk_reader(c: CompressionType, blob: Seq<u8>) -> Result<
    Seq<ChunkModel>,
    Error,
> {
    match spec_decompress(c, blob) {
        Err(e) => Err(e),
        Ok(d) => match spec_parse_chunks(d, 0) {
            Err(e) => Err(e),
            Ok((chunks, _)) => Ok(chunks),
        },
    }
}

/// Unpacks a payload and reads its chunks.
pub fn chunk_reader(compression_type: &CompressionType, blob: &[u8]) -> (res: Result<Vec<Chunk>, Error>)
    ensures
        match spec_chunk_reader(*compression_type, blob@) {
            Err(e) => res matches Err(f) && e == f,
            Ok(chunks) => res matches Ok(v) && views(v@) == chunks,
        },
        res matches Ok(v) ==> forall|i: int|
            0 <= i < v@.len() ==> !is_zero_tag((#[trigger] views(v@)[i]).tag),
{
    let data = match decompress_save(compression_type, blob) {
        Ok(d) => d,
        Err(e) => {
            return Err(e);
        },
    };
    match Chunks::read(data.as_slice(), 0) {
        Ok((c, _)) => Ok(c.chunks),
        Err(e) => Err(e),
    }
}

/// Writes the chunks and the terminator into a payload.
pub fn payload_of(chunks: &Vec<Chunk>) -> (res: Result<Vec<u8>, Error>)
    ensures
        match spec_check_chunks(views(chunks@)) {
            Err(e) => res matches Err(f) && e == f,
            Ok(_) => res matches Ok(v) && v@ == payload_bytes(views(chunks@)),
        },
{
    match check_chunks(chunks) {
        Err(e) => {
            return Err(e);
        },
        Ok(_) => {},
    }
    let mut payload: Vec<u8> = Vec::new();
    write_chunks(chunks, &mut payload);
    assert(payload@ =~= payload_bytes(views(chunks@)));
    Ok(payload)
}

/// Writes the chunks and the terminator into a payload and packs it. LZO
/// and zlib give `UnsupportedCompression` before anything is looked at.
pub fn chunk_writer(chunks: &Vec<Chunk>, compression_type: &CompressionType) -> (res: Result<
    Vec<u8>,
    Error,
>)
    ensures
        gives(res, spec_pack_chunks(views(chunks@), *compression_type)),
        res matches Ok(v) ==> spec_decompress(*compression_type, v@) == Ok::<Seq<u8>, Error>(
            payload_bytes(views(chunks@)),
        ),
{
    match compression_type {
        CompressionType::OTTD => {
            return Err(Error::UnsupportedCompression);
        },
        CompressionType::OTTZ => {
            return Err(Error::UnsupportedCompression);
        },
        _ => {},
    }
    let payload = match payload_of(chunks) {
        Ok(p) => p,
        Err(e) => {
            return Err(e);
        },
    };
    compress_save(compression_type, payload.as_slice())
}

impl Save {
    /// Reads a save: the container, then the chunks of the unpacked
    /// payload. No chunk of the result has a tag of four zero bytes.
    pub fn read(bytes: &[u8]) -> (res: Result<Save, Error>)
        ensures
            match spec_decode(bytes@) {
                Ok(m) => res matches Ok(s) && s@ == m,
                Err(e) => res matches Err(f) && e == f,
            },
            res matches Ok(s) ==> forall|i: int|
                0 <= i < s@.chunks.len() ==> !is_zero_tag((#[trigger] s@.chunks[i]).tag),
            res matches Ok(s) ==> can_be_written(bytes@, s@),
    {
        if bytes.len() < 4 {
            return Err(Error::Truncated);
        }
        let compression_type = match CompressionType::from_magic(bytes) {
            Some(c) => c,
            None => {
                return Err(Error::UnsupportedCompression);
            },
        };
        if bytes.len() < 8 {
            return Err(Error::Truncated);
        }
        let version = u16::read_at(bytes, 4);
        let ignore = u16::read_at(bytes, 6);
        let rest = slice_subrange(bytes, 8, bytes.len());
        assert(rest@ =~= bytes@.skip(8));
        match chunk_reader(&compression_type, rest) {
            Ok(chunks) => {
                let save = Save { compression_type, version, ignore, chunks };
                proof {
                    if spec_parse_outer(bytes@).unwrap().data.len() < u32::MAX {
                        lemma_decoded_checks(bytes@, save@);
                    }
                }
                Ok(save)
            },
            Err(e) => Err(e),
        }
    }

    /// Whether the save can be written, and if not, why.
    pub fn check(&self) -> (res: Result<(), Error>)
        ensures
            res == spec_check_save(self@),
    {
        match self.compression_type {
            CompressionType::OTTD => Err(Error::UnsupportedCompression),
            CompressionType::OTTZ => Err(Error::UnsupportedCompression),
            _ => check_chunks(&self.chunks),
        }
    }

    /// Writes a save. A save that cannot be written gives the error of
    /// `check`. Else the eight bytes of the head come first, and then the
    /// payload: as it is where the save is not packed, else packed with
    /// LZMA at preset 2 or zstd at its default level. What comes back is a
    /// wire form of the save: reading it gives the save.
    pub fn write(&self) -> (res: Result<Vec<u8>, Error>)
        ensures
            gives(res, spec_encode(self@)),
            res matches Ok(b) ==> encodes(self@, b@),
            spec_check_save(self@) is Ok && self.compression_type == CompressionType::OTTN ==> (
            res matches Ok(b) && b@ == plain_bytes(self@)),
    {
        match chunk_writer(&self.chunks, &self.compression_type) {
            Ok(packed) => Ok(
                assemble(&self.compression_type, self.version, self.ignore, packed.as_slice()),
            ),
            Err(e) => Err(e),
        }
    }

    /// The value of the first chunk with this tag, if there is one.
    pub fn get(&self, tag: &[u8; 4]) -> (res: Option<&ChunkValue>)
        ensures
            match res {
                Some(v) => exists|i: int|
                    0 <= i < self.chunks@.len() && (#[trigger] self.chunks@[i]).tag@ == tag@
                        && self.chunks@[i].value == *v && forall|j: int|
                        0 <= j < i ==> (#[trigger] self.chunks@[j]).tag@ != tag@,
                None => forall|i: int|
                    0 <= i < self.chunks@.len() ==> (#[trigger] self.chunks@[i]).tag@ != tag@,
            },
    {
        let mut i: usize = 0;
        while i < self.chunks.len()
            invariant
                i <= self.chunks.len(),
                forall|j: int| 0 <= j < i ==> (#[trigger] self.chunks@[j]).tag@ != tag@,
            decreases self.chunks.len() - i,
        {
            let t = &self.chunks[i].tag;
            if t[0] == tag[0] && t[1] == tag[1] && t[2] == tag[2] && t[3] == tag[3] {
                assert(t@ =~= tag@);
                return Some(&self.chunks[i].value);
            }
            assert(t@ != tag@);
            i = i + 1;
        }
        None
    }
}

/// Reads a save from its bytes. No chunk of the result has a tag of four
/// zero bytes, and the result can be written again unless its unpacked
/// payload was `u32::MAX` bytes or more.
pub fn decode(bytes: &[u8]) -> (res: Result<Save, Error>)
    ensures
        match spec_decode(bytes@) {
            Ok(m) => res matches Ok(s) && s@ == m,
            Err(e) => res matches Err(f) && e == f,
        },
        res matches Ok(s) ==> forall|i: int|
            0 <= i < s@.chunks.len() ==> !is_zero_tag((#[trigger] s@.chunks[i]).tag),
        res matches Ok(s) ==> can_be_written(bytes@, s@),
{
    Save::read(bytes)
}

/// Writes a save into bytes: the error of its check, else the eight bytes
/// of the head and then the payload, packed with LZMA at preset 2 or zstd
/// at its default level where the save asks for it. What comes back is a
/// wire form of the save: reading it gives the save.
pub fn encode(save: &Save) -> (res: Result<Vec<u8>, Error>)
    ensures
        gives(res, spec_encode(save@)),
        res matches Ok(b) ==> encodes(save@, b@),
        spec_check_save(save@) is Ok && save.compression_type == CompressionType::OTTN ==> (
        res matches Ok(b) && b@ == plain_bytes(save@)),
{
    save.write()
}

/// Whether `bytes` are a save that is not packed, exactly as the writer
/// gives it: whether reading them and writing what was read gives them
/// back, byte for byte. For bytes shorter than `u32::MAX` that is whether
/// they stand in the form that the writer gives.
pub fn is_written_plain(bytes: &[u8]) -> (b: bool)
    ensures
        b == written_plain(bytes@),
        bytes@.len() < u32::MAX ==> b == canonical_plain(bytes@),
{
    proof {
        if written_plain(bytes@) {
            lemma_reencode_plain(bytes@);
            lemma_written_is_canonical(bytes@);
        }
        if canonical_plain(bytes@) && bytes@.len() < u32::MAX {
            lemma_canonical_is_written(bytes@);
        }
    }
    let save = match decode(bytes) {
        Ok(s) => s,
        Err(_) => {
            return false;
        },
    };
    match save.compression_type {
        CompressionType::OTTN => {},
        _ => {
            return false;
        },
    }
    match encode(&save) {
        Err(_) => false,
        Ok(again) => {
            let same = bytes_eq(again.as_slice(), bytes);
            proof {
                if same {
                    let o = spec_parse_outer(bytes@).unwrap();
                    let (chunks, q) = spec_parse_chunks(o.data, 0).unwrap();
                    lemma_reencoded_is_written(bytes@, save@);
                }
            }
            same
        },
    }
}

} // verus!
