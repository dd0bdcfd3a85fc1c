use crate::chtable::data::ints_of;
use crate::chtable::laws::lemma_list_bytes_len;
use crate::chtable::value::{int_item, ints_encs, ints_fit};
use crate::error::{agrees, Error};
use crate::repeat::{
    concat, first_error, lemma_concat_take, lemma_first_error, lemma_parse_n_round_trip,
    lemma_views_empty, lemma_views_push, lemma_with_prefix_done, lemma_with_prefix_push, parse_n, views, with_prefix,
};
use crate::save::chunk::{ChunkValue, ChunkValueModel};
use crate::save::container::Save;
use crate::save::stream::ChunkModel;
use crate::text::{lemma_text_round_trip, spec_parse_text, TableString, text_bytes, text_len};
use crate::wire::{
    has_at, int_bytes, lemma_has_at_split, lemma_int_bytes_len, lemma_int_round_trip,
    lemma_uint_round_trip, put_bytes, read_int, spec_take, take_bytes, uint_at, WireInt,
};
use vstd::prelude::*;
use vstd::string::StringSliceAdditionalSpecFns;

verus! {

/// The four bytes of flags of one entry of the extensions index, as one
/// number: the four named bits are its lowest, the other 28 are kept as they
/// are.
#[derive(Debug, Clone, Copy, PartialEq, Eq, Structural)]
pub struct SlxiSubChunkFlags {
    pub raw: u32,
}

/// Bit 0: the extension may be ignored where it is not known.
pub open spec fn flag_ignorable_unknown(raw: u32) -> bool {
    raw % 2 == 1
}

/// Bit 1: the extension may be ignored where its version is not known.
pub open spec fn flag_ignorable_version(raw: u32) -> bool {
    raw / 2 % 2 == 1
}

/// Bit 2: extra data follows the name.
pub open spec fn flag_extra_data(raw: u32) -> bool {
    raw / 4 % 2 == 1
}

/// Bit 3: a list of chunk ids follows.
pub open spec fn flag_chunk_list(raw: u32) -> bool {
    raw / 8 % 2 == 1
}

impl SlxiSubChunkFlags {
    /// Bit 0.
    pub fn ignorable_unknown(&self) -> (b: bool)
        ensures
            b == flag_ignorable_unknown(self.raw),
    {
        self.raw % 2 == 1
    }

    /// Bit 1.
    pub fn ignorable_version(&self) -> (b: bool)
        ensures
            b == flag_ignorable_version(self.raw),
    {
        self.raw / 2 % 2 == 1
    }

    /// Bit 2.
    pub fn extra_data_present(&self) -> (b: bool)
        ensures
            b == flag_extra_data(self.raw),
    {
        self.raw / 4 % 2 == 1
    }

    /// Bit 3.
    pub fn chunk_id_list_present(&self) -> (b: bool)
        ensures
            b == flag_chunk_list(self.raw),
    {
        self.raw / 8 % 2 == 1
    }
}

/// One entry of the extensions index.
pub struct ExtendedChunkModel {
    pub flags: u32,
    pub version: u16,
    pub name: Seq<u8>,
    pub extra_data: Option<Seq<u8>>,
    pub chunk_list: Option<Seq<int>>,
}

/// One entry of the extensions index: a named feature with its version.
#[derive(Debug, Clone, PartialEq, Eq)]
pub struct ExtendedChunk {
    pub flags: SlxiSubChunkFlags,
    pub version: u16,
    pub name: TableString,
    pub extra_data: Option<Vec<u8>>,
    pub chunk_list: Option<Vec<u32>>,
}

impl View for ExtendedChunk {
    type V = ExtendedChunkModel;

    open spec fn view(&self) -> ExtendedChunkModel {
        ExtendedChunkModel {
            flags: self.flags.raw,
            version: self.version,
            name: self.name@,
            extra_data: match self.extra_data {
                Some(d) => Some(d@),
                None => None,
            },
            chunk_list: match self.chunk_list {
                Some(l) => Some(ints_of(l@)),
                None => None,
            },
        }
    }
}

/// The extensions index.
pub struct SlxiModel {
    pub chunk_version: u32,
    pub flags: u32,
    pub entries: Seq<ExtendedChunkModel>,
}

/// The extensions index of a save of the JGR patch pack: which features
/// the save uses.
#[derive(Debug, Clone, PartialEq, Eq)]
pub struct SLXI {
    pub chunk_version: u32,
    pub flags: u32,
    pub chunks: Vec<ExtendedChunk>,
}

impl View for SLXI {
    type V = SlxiModel;

    open spec fn view(&self) -> SlxiModel {
        SlxiModel {
            chunk_version: self.chunk_version,
            flags: self.flags,
            entries: views(self.chunks@),
        }
    }
}

/// Reading bytes behind a 32-bit length from `s` at `pos`.
pub open spec fn spec_parse_blob(s: Seq<u8>, pos: int) -> Result<(Seq<u8>, int), Error> {
    if pos < 0 || pos + 4 > s.len() {
        Err(Error::Truncated)
    } else {
        spec_take(s, pos + 4, uint_at(s, pos, 4))
    }
}

/// Reading 32-bit numbers behind a 32-bit count from `s` at `pos`.
pub open spec fn spec_parse_ids(s: Seq<u8>, pos: int) -> Result<(Seq<int>, int), Error> {
    if pos < 0 || pos + 4 > s.len() {
        Err(Error::Truncated)
    } else {
        parse_n(int_item(4, false), s, pos + 4, uint_at(s, pos, 4) as nat)
    }
}

/// Reading the extra data of an entry, where its flags announce it.
pub open spec fn spec_parse_extra(s: Seq<u8>, pos: int, flags: u32) -> Result<
    (Option<Seq<u8>>, int),
    Error,
> {
    if flag_extra_data(flags) {
        match spec_parse_blob(s, pos) {
            Err(e) => Err(e),
            Ok((d, q)) => Ok((Some(d), q)),
        }
    } else {
        Ok((None, pos))
    }
}

/// Reading the list of chunk ids of an entry, where its flags announce it.
pub open spec fn spec_parse_chunk_list(s: Seq<u8>, pos: int, flags: u32) -> Result<
    (Option<Seq<int>>, int),
    Error,
> {
    if flag_chunk_list(flags) {
        match spec_parse_ids(s, pos) {
            Err(e) => Err(e),
            Ok((l, q)) => Ok((Some(l), q)),
        }
    } else {
        Ok((None, pos))
    }
}

/// Reading one entry of the extensions index from `s` at `pos`: flags,
/// version, name, and what the flags announce.
pub open spec fn spec_parse_entry(s: Seq<u8>, pos: int) -> Result<(ExtendedChunkModel, int), Error> {
    if pos < 0 || pos + 6 > s.len() {
        Err(Error::Truncated)
    } else {
        let flags = uint_at(s, pos, 4) as u32;
        match spec_parse_text(s, pos + 6) {
            Err(e) => Err(e),
            Ok((name, q)) => match spec_parse_extra(s, q, flags) {
                Err(e) => Err(e),
                Ok((extra_data, r)) => match spec_parse_chunk_list(s, r, flags) {
                    Err(e) => Err(e),
                    Ok((chunk_list, t)) => Ok(
                        (
                            ExtendedChunkModel {
                                flags,
                                version: uint_at(s, pos + 4, 2) as u16,
                                name,
                                extra_data,
                                chunk_list,
                            },
                            t,
                        ),
                    ),
                },
            },
        }
    }
}

/// `spec_parse_entry` as a value.
pub open spec fn entry_item() -> spec_fn(Seq<u8>, int) -> Result<(ExtendedChunkModel, int), Error> {
    |s: Seq<u8>, pos: int| spec_parse_entry(s, pos)
}

/// Reading the extensions index from `s` at `pos`: version, flags, the
/// number of entries, and the entries.
pub open spec fn spec_parse_slxi(s: Seq<u8>, pos: int) -> Result<(SlxiModel, int), Error> {
    if pos < 0 || pos + 12 > s.len() {
        Err(Error::Truncated)
    } else {
        match parse_n(entry_item(), s, pos + 12, uint_at(s, pos + 8, 4) as nat) {
            Err(e) => Err(e),
            Ok((entries, q)) => Ok(
                (
                    SlxiModel {
                        chunk_version: uint_at(s, pos, 4) as u32,
                        flags: uint_at(s, pos + 4, 4) as u32,
                        entries,
                    },
                    q,
                ),
            ),
        }
    }
}

/// The wire form of bytes behind their 32-bit length.
pub open spec fn blob_bytes(d: Seq<u8>) -> Seq<u8> {
    int_bytes(d.len() as int, 4, false) + d
}

/// The wire form of 32-bit numbers behind their 32-bit count.
pub open spec fn ids_bytes(l: Seq<int>) -> Seq<u8> {
    int_bytes(l.len() as int, 4, false) + concat(ints_encs(l, 4, false))
}

/// The wire form of one entry of the extensions index.
pub open spec fn entry_bytes(e: ExtendedChunkModel) -> Seq<u8> {
    int_bytes(e.flags as int, 4, false) + int_bytes(e.version as int, 2, false) + text_bytes(
        e.name,
    ) + (match e.extra_data {
        Some(d) => blob_bytes(d),
        None => Seq::empty(),
    }) + (match e.chunk_list {
        Some(l) => ids_bytes(l),
        None => Seq::empty(),
    })
}

/// The wire forms of the entries, each on its own.
pub open spec fn entries_encs(entries: Seq<ExtendedChunkModel>) -> Seq<Seq<u8>> {
    Seq::new(entries.len(), |i: int| entry_bytes(entries[i]))
}

/// The wire form of the extensions index.
pub open spec fn slxi_bytes(x: SlxiModel) -> Seq<u8> {
    int_bytes(x.chunk_version as int, 4, false) + int_bytes(x.flags as int, 4, false) + int_bytes(
        x.entries.len() as int,
        4,
        false,
    ) + concat(entries_encs(x.entries))
}

/// Whether an entry can be written, and if not, why: `SizeMismatch` where
/// its flags announce extra data or a list of chunk ids that it has not, or
/// it has one that its flags do not announce; else `IntegerOverflow` where a
/// length does not fit 32 bits.
pub open spec fn spec_check_entry(e: ExtendedChunkModel) -> Result<(), Error> {
    if flag_extra_data(e.flags) != e.extra_data.is_some() || flag_chunk_list(e.flags)
        != e.chunk_list.is_some() {
        Err(Error::SizeMismatch)
    } else if e.name.len() > u32::MAX || (e.extra_data matches Some(d) && d.len() > u32::MAX) || (
    e.chunk_list matches Some(l) && l.len() > u32::MAX) {
        Err(Error::IntegerOverflow)
    } else {
        Ok(())
    }
}

/// The outcomes of checking each entry.
pub open spec fn entries_checks(entries: Seq<ExtendedChunkModel>) -> Seq<Result<(), Error>> {
    Seq::new(entries.len(), |i: int| spec_check_entry(entries[i]))
}

/// Whether the extensions index can be written, and if not, why:
/// `IntegerOverflow` where the number of entries does not fit 32 bits, else
/// the error of the first entry that cannot be written.
pub open spec fn spec_check_slxi(x: SlxiModel) -> Result<(), Error> {
    if x.entries.len() > u32::MAX {
        Err(Error::IntegerOverflow)
    } else {
        first_error(entries_checks(x.entries))
    }
}

/// Whether one of the entries has the name `name`.
pub open spec fn spec_has_feature(x: SlxiModel, name: Seq<u8>) -> bool {
    exists|i: int| 0 <= i < x.entries.len() && (#[trigger] x.entries[i]).name == name
}

/// Reads bytes behind a 32-bit length.
pub fn read_blob(data: &[u8], pos: usize) -> (res: Result<(Vec<u8>, usize), Error>)
    ensures
        agrees(res, spec_parse_blob(data@, pos as int)),
        res matches Ok((_, p)) ==> pos < p <= data.len(),
{
    if pos > data.len() || data.len() - pos < 4 {
        return Err(Error::Truncated);
    }
    let n = u32::read_at(data, pos);
    take_bytes(data, pos + 4, n as usize)
}

/// Reads 32-bit numbers behind a 32-bit count.
pub fn read_ids(data: &[u8], pos: usize) -> (res: Result<(Vec<u32>, usize), Error>)
    ensures
        match spec_parse_ids(data@, pos as int) {
            Ok((xs, q)) => res matches Ok((v, p)) && ints_of(v@) == xs && p == q && pos < p
                <= data.len(),
            Err(e) => res matches Err(f) && e == f,
        },
{
    if pos > data.len() || data.len() - pos < 4 {
        return Err(Error::Truncated);
    }
    let ghost s = data@;
    let ghost item = int_item(4, false);
    let n = u32::read_at(data, pos);
    let q: usize = pos + 4;
    let mut acc: Vec<u32> = Vec::new();
    let mut p: usize = q;
    let mut k: u32 = 0;
    proof {
        assert(ints_of(acc@) =~= Seq::<int>::empty());
        match parse_n(item, s, q as int, n as nat) {
            Ok((vs, r)) => {
                assert(Seq::<int>::empty() + vs =~= vs);
            },
            Err(_) => {},
        }
    }
    while k < n
        invariant
            s == data@,
            item == int_item(4, false),
            k <= n,
            pos < q <= p <= data.len(),
            q == pos + 4,
            n as int == uint_at(s, pos as int, 4),
            parse_n(item, s, q as int, n as nat) == with_prefix(
                ints_of(acc@),
                parse_n(item, s, p as int, (n - k) as nat),
            ),
        decreases n - k,
    {
        match read_int::<u32>(data, p) {
            Err(e) => {
                return Err(e);
            },
            Ok((v, r)) => {
                proof {
                    lemma_with_prefix_push(
                        ints_of(acc@),
                        v.as_int(),
                        parse_n(item, s, r as int, (n - k - 1) as nat),
                    );
                    assert(ints_of(acc@.push(v)) =~= ints_of(acc@).push(v.as_int()));
                }
                acc.push(v);
                p = r;
                k = k + 1;
            },
        }
    }
    proof {
        lemma_with_prefix_done(ints_of(acc@), p as int);
    }
    Ok((acc, p))
}

impl ExtendedChunk {
    /// Reads one entry of the extensions index from `data` at `pos`.
    pub fn read(data: &[u8], pos: usize) -> (res: Result<(ExtendedChunk, usize), Error>)
        ensures
            agrees(res, spec_parse_entry(data@, pos as int)),
            res matches Ok((_, p)) ==> pos < p <= data.len(),
    {
        if pos > data.len() || data.len() - pos < 6 {
            return Err(Error::Truncated);
        }
        let flags = SlxiSubChunkFlags { raw: u32::read_at(data, pos) };
        let version = u16::read_at(data, pos + 4);
        let (name, q) = match TableString::read(data, pos + 6) {
            Ok(r) => r,
            Err(e) => {
                return Err(e);
            },
        };
        let (extra_data, r) = if flags.extra_data_present() {
            match read_blob(data, q) {
                Ok((d, r)) => (Some(d), r),
                Err(e) => {
                    return Err(e);
                },
            }
        } else {
            (None, q)
        };
        let (chunk_list, t) = if flags.chunk_id_list_present() {
            match read_ids(data, r) {
                Ok((l, t)) => (Some(l), t),
                Err(e) => {
                    return Err(e);
                },
            }
        } else {
            (None, r)
        };
        Ok((ExtendedChunk { flags, version, name, extra_data, chunk_list }, t))
    }

    /// Whether the entry can be written, and if not, why.
    pub fn check(&self) -> (res: Result<(), Error>)
        ensures
            res == spec_check_entry(self@),
    {
        if self.flags.extra_data_present() != self.extra_data.is_some()
            || self.flags.chunk_id_list_present() != self.chunk_list.is_some() {
            return Err(Error::SizeMismatch);
        }
        if self.name.len() > 0xFFFF_FFFF {
            return Err(Error::IntegerOverflow);
        }
        match &self.extra_data {
            Some(d) => {
                if d.len() > 0xFFFF_FFFF {
                    return Err(Error::IntegerOverflow);
                }
            },
            None => {},
        }
        match &self.chunk_list {
            Some(l) => {
                if l.len() > 0xFFFF_FFFF {
                    return Err(Error::IntegerOverflow);
                }
            },
            None => {},
        }
        Ok(())
    }

    /// Appends the wire form to `out`.
    pub fn write(&self, out: &mut Vec<u8>)
        requires
            spec_check_entry(self@) is Ok,
        ensures
            final(out)@ == old(out)@ + entry_bytes(self@),
    {
        self.flags.raw.write_to(out);
        self.version.write_to(out);
        self.name.write(out);
        let ghost a = out@;
        match &self.extra_data {
            Some(d) => {
                (d.len() as u32).write_to(out);
                put_bytes(d.as_slice(), out);
                assert(out@ =~= a + blob_bytes(d@));
            },
            None => {
                assert(out@ =~= a + Seq::<u8>::empty());
            },
        }
        let ghost b = out@;
        match &self.chunk_list {
            Some(l) => {
                let ghost enc = ints_encs(ints_of(l@), 4, false);
                (l.len() as u32).write_to(out);
                let ghost mid = out@;
                let mut i: usize = 0;
                proof {
                    lemma_concat_take(enc, 0);
                }
                while i < l.len()
                    invariant
                        i <= l.len(),
                        enc == ints_encs(ints_of(l@), 4, false),
                        out@ == mid + concat(enc.take(i as int)),
                    decreases l.len() - i,
                {
                    proof {
                        lemma_concat_take(enc, i as int);
                    }
                    l[i].write_to(out);
                    i = i + 1;
                    assert(out@ =~= mid + concat(enc.take(i as int)));
                }
                proof {
                    lemma_concat_take(enc, i as int);
                }
                assert(out@ =~= b + ids_bytes(ints_of(l@)));
            },
            None => {
                assert(out@ =~= b + Seq::<u8>::empty());
            },
        }
        assert(out@ =~= old(out)@ + entry_bytes(self@));
    }
}

impl SLXI {
    /// The empty index: no feature.
    pub fn empty() -> (x: SLXI)
        ensures
            x@.entries.len() == 0,
            x.chunk_version == 0,
            x.flags == 0,
            forall|name: Seq<u8>| !spec_has_feature(x@, name),
    {
        SLXI { chunk_version: 0, flags: 0, chunks: Vec::new() }
    }

    /// Whether the save uses the feature `name`.
    pub fn has_feature(&self, name: &str) -> (b: bool)
        ensures
            b == spec_has_feature(self@, name.spec_bytes()),
    {
        let mut i: usize = 0;
        while i < self.chunks.len()
            invariant
                i <= self.chunks.len(),
                forall|k: int| 0 <= k < i ==> (#[trigger] self@.entries[k]).name != name.spec_bytes(),
            decreases self.chunks.len() - i,
        {
            assert(self@.entries[i as int] == self.chunks@[i as int]@);
            if self.chunks[i].name.is_text(name) {
                return true;
            }
            i = i + 1;
        }
        false
    }

    /// Reads the extensions index from `data` at `pos`.
    pub fn read(data: &[u8], pos: usize) -> (res: Result<(SLXI, usize), Error>)
        ensures
            agrees(res, spec_parse_slxi(data@, pos as int)),
            res matches Ok((_, p)) ==> pos < p <= data.len(),
            res matches Ok((x, _)) ==> spec_check_slxi(x@) is Ok,
    {
        if pos > data.len() || data.len() - pos < 12 {
            return Err(Error::Truncated);
        }
        let ghost s = data@;
        let chunk_version = u32::read_at(data, pos);
        let flags = u32::read_at(data, pos + 4);
        let n = u32::read_at(data, pos + 8);
        let q: usize = pos + 12;
        let mut acc: Vec<ExtendedChunk> = Vec::new();
        let mut p: usize = q;
        let mut k: u32 = 0;
        proof {
            lemma_views_empty(acc@);
            match parse_n(entry_item(), s, q as int, n as nat) {
                Ok((vs, r)) => {
                    assert(Seq::<ExtendedChunkModel>::empty() + vs =~= vs);
                },
                Err(_) => {},
            }
        }
        while k < n
            invariant
                s == data@,
                k <= n,
                pos < q <= p <= data.len(),
                q == pos + 12,
                n as int == uint_at(s, pos + 8, 4),
                parse_n(entry_item(), s, q as int, n as nat) == with_prefix(
                    views(acc@),
                    parse_n(entry_item(), s, p as int, (n - k) as nat),
                ),
            decreases n - k,
        {
            match ExtendedChunk::read(data, p) {
                Err(e) => {
                    return Err(e);
                },
                Ok((v, r)) => {
                    proof {
                        lemma_with_prefix_push(
                            views(acc@),
                            v@,
                            parse_n(entry_item(), s, r as int, (n - k - 1) as nat),
                        );
                        lemma_views_push(acc@, v);
                    }
                    acc.push(v);
                    p = r;
                    k = k + 1;
                },
            }
        }
        proof {
            lemma_with_prefix_done(views(acc@), p as int);
        }
        let x = SLXI { chunk_version, flags, chunks: acc };
        proof {
            lemma_parsed_slxi(s, pos as int, x@, p as int);
        }
        Ok((x, p))
    }

    /// Whether the extensions index can be written, and if not, why.
    pub fn check(&self) -> (res: Result<(), Error>)
        ensures
            res == spec_check_slxi(self@),
    {
        if self.chunks.len() > 0xFFFF_FFFF {
            return Err(Error::IntegerOverflow);
        }
        let ghost checks = entries_checks(self@.entries);
        let mut i: usize = 0;
        while i < self.chunks.len()
            invariant
                i <= self.chunks.len(),
                self.chunks@.len() <= u32::MAX,
                checks == entries_checks(self@.entries),
                forall|k: int| 0 <= k < i ==> (#[trigger] checks[k]) is Ok,
            decreases self.chunks.len() - i,
        {
            assert(checks[i as int] == spec_check_entry(self.chunks@[i as int]@));
            match self.chunks[i].check() {
                Err(e) => {
                    proof {
                        lemma_first_error(checks, i as int);
                    }
                    return Err(e);
                },
                Ok(_) => {},
            }
            i = i + 1;
        }
        proof {
            lemma_first_error(checks, i as int);
        }
        Ok(())
    }

    /// Appends the wire form to `out`.
    pub fn write(&self, out: &mut Vec<u8>)
        requires
            spec_check_slxi(self@) is Ok,
        ensures
            final(out)@ == old(out)@ + slxi_bytes(self@),
    {
        let ghost ms = self@.entries;
        let ghost enc = entries_encs(ms);
        let ghost checks = entries_checks(ms);
        self.chunk_version.write_to(out);
        self.flags.write_to(out);
        (self.chunks.len() as u32).write_to(out);
        let ghost mid = out@;
        proof {
            lemma_first_error(checks, 0);
            lemma_concat_take(enc, 0);
        }
        let mut i: usize = 0;
        while i < self.chunks.len()
            invariant
                i <= self.chunks.len(),
                ms == self@.entries,
                enc == entries_encs(ms),
                checks == entries_checks(ms),
                forall|k: int| 0 <= k < checks.len() ==> (#[trigger] checks[k]) is Ok,
                out@ == mid + concat(enc.take(i as int)),
            decreases self.chunks.len() - i,
        {
            proof {
                lemma_concat_take(enc, i as int);
                assert(checks[i as int] is Ok);
                assert(ms[i as int] == self.chunks@[i as int]@);
            }
            self.chunks[i].write(out);
            i = i + 1;
            assert(out@ =~= mid + concat(enc.take(i as int)));
        }
        proof {
            lemma_concat_take(enc, i as int);
        }
        assert(out@ =~= old(out)@ + slxi_bytes(self@));
    }
}

/// Which features a save uses: what its chunk tagged `SLXI` holds. A save
/// without that chunk uses none. `InvalidChunk` where the chunk is no RIFF
/// chunk.
pub open spec fn spec_slxi_of(chunks: Seq<ChunkModel>, i: int) -> Result<
    SlxiModel,
    Error,
>
    decreases chunks.len() - i,
{
    if i < 0 || i >= chunks.len() {
        Ok(SlxiModel { chunk_version: 0, flags: 0, entries: Seq::empty() })
    } else if chunks[i].tag == seq![0x53u8, 0x4Cu8, 0x58u8, 0x49u8] {
        match chunks[i].value {
            ChunkValueModel::Riff(d) => match spec_parse_slxi(d, 0) {
                Err(e) => Err(e),
                Ok((x, _)) => Ok(x),
            },
            _ => Err(Error::InvalidChunk),
        }
    } else {
        spec_slxi_of(chunks, i + 1)
    }
}

impl Save {
    /// Which features the save uses: what its first chunk tagged `SLXI`
    /// holds, or the empty index where it has none.
    pub fn slxi(&self) -> (res: Result<SLXI, Error>)
        ensures
            match spec_slxi_of(self@.chunks, 0) {
                Ok(m) => res matches Ok(x) && x@ == m,
                Err(e) => res matches Err(f) && e == f,
            },
    {
        let mut i: usize = 0;
        while i < self.chunks.len()
            invariant
                i <= self.chunks.len(),
                spec_slxi_of(self@.chunks, 0) == spec_slxi_of(self@.chunks, i as int),
            decreases self.chunks.len() - i,
        {
            let c = &self.chunks[i];
            assert(self@.chunks[i as int] == c@);
            if c.tag[0] == 0x53 && c.tag[1] == 0x4C && c.tag[2] == 0x58 && c.tag[3] == 0x49 {
                assert(c@.tag =~= seq![0x53u8, 0x4Cu8, 0x58u8, 0x49u8]);
                match &c.value {
                    ChunkValue::ChRiff { data } => {
                        return match SLXI::read(data.as_slice(), 0) {
                            Ok((x, _)) => Ok(x),
                            Err(e) => Err(e),
                        };
                    },
                    _ => {
                        return Err(Error::InvalidChunk);
                    },
                }
            }
            assert(c@.tag != seq![0x53u8, 0x4Cu8, 0x58u8, 0x49u8]);
            i = i + 1;
        }
        let x = SLXI::empty();
        assert(x@.entries =~= Seq::<ExtendedChunkModel>::empty());
        Ok(x)
    }
}

/// Every chunk id of the entry is a 32-bit number. Every entry held in
/// memory is so.
pub open spec fn entry_wf(e: ExtendedChunkModel) -> bool {
    e.chunk_list matches Some(l) ==> ints_fit(l, 4, false)
}

/// Wherever the wire form of an entry that can be written stands, reading
/// an entry there gives the entry back and stops right behind it.
pub proof fn lemma_entry_round_trip(e: ExtendedChunkModel, s: Seq<u8>, pos: int)
    requires
        spec_check_entry(e) is Ok,
        entry_wf(e),
        has_at(s, pos, entry_bytes(e)),
    ensures
        spec_parse_entry(s, pos) == Ok::<(ExtendedChunkModel, int), Error>(
            (e, pos + entry_bytes(e).len()),
        ),
{
    let f = int_bytes(e.flags as int, 4, false);
    let v = int_bytes(e.version as int, 2, false);
    let n = text_bytes(e.name);
    let x = match e.extra_data {
        Some(d) => blob_bytes(d),
        None => Seq::empty(),
    };
    let l = match e.chunk_list {
        Some(l) => ids_bytes(l),
        None => Seq::empty(),
    };
    assert(entry_bytes(e) == (((f + v) + n) + x) + l);
    lemma_has_at_split(s, pos, ((f + v) + n) + x, l);
    lemma_has_at_split(s, pos, (f + v) + n, x);
    lemma_has_at_split(s, pos, f + v, n);
    lemma_has_at_split(s, pos, f, v);
    lemma_uint_round_trip(s, pos, e.flags as int, 4);
    lemma_uint_round_trip(s, pos + 4, e.version as int, 2);
    lemma_text_round_trip(s, pos + 6, e.name);
    let q = pos + 6 + text_len(e.name);
    match e.extra_data {
        Some(d) => {
            lemma_blob_round_trip(d, s, q);
        },
        None => {},
    }
    let r = q + x.len();
    match e.chunk_list {
        Some(ids) => {
            lemma_ids_round_trip(ids, s, r);
        },
        None => {},
    }
}

/// Wherever bytes behind their 32-bit length stand, reading them there
/// gives them back.
pub proof fn lemma_blob_round_trip(d: Seq<u8>, s: Seq<u8>, pos: int)
    requires
        d.len() <= u32::MAX,
        has_at(s, pos, blob_bytes(d)),
    ensures
        spec_parse_blob(s, pos) == Ok::<(Seq<u8>, int), Error>((d, pos + 4 + d.len())),
        blob_bytes(d).len() == 4 + d.len(),
{
    lemma_has_at_split(s, pos, int_bytes(d.len() as int, 4, false), d);
    lemma_uint_round_trip(s, pos, d.len() as int, 4);
}

/// Wherever 32-bit numbers behind their 32-bit count stand, reading them
/// there gives them back.
pub proof fn lemma_ids_round_trip(l: Seq<int>, s: Seq<u8>, pos: int)
    requires
        l.len() <= u32::MAX,
        ints_fit(l, 4, false),
        has_at(s, pos, ids_bytes(l)),
    ensures
        spec_parse_ids(s, pos) == Ok::<(Seq<int>, int), Error>((l, pos + 4 + 4 * l.len())),
        ids_bytes(l).len() == 4 + 4 * l.len(),
{
    let enc = ints_encs(l, 4, false);
    lemma_has_at_split(s, pos, int_bytes(l.len() as int, 4, false), concat(enc));
    lemma_uint_round_trip(s, pos, l.len() as int, 4);
    lemma_list_bytes_len(l, 4, false);
    assert forall|i: int, p: int|
        0 <= i < l.len() && #[trigger] has_at(s, p, enc[i]) implies int_item(
        4,
        false,
    )(s, p) == Ok::<(int, int), Error>((l[i], p + enc[i].len())) by {
        lemma_int_bytes_len(l[i], 4, false);
        lemma_int_round_trip(s, p, l[i], 4, false);
    }
    lemma_parse_n_round_trip(int_item(4, false), l, enc, s, pos + 4);
}

/// Every entry of the index has chunk ids that are 32-bit numbers.
pub open spec fn slxi_wf(x: SlxiModel) -> bool {
    forall|i: int| 0 <= i < x.entries.len() ==> entry_wf(#[trigger] x.entries[i])
}

/// Wherever the wire form of an extensions index that can be written
/// stands, reading an index there gives the index back and stops right
/// behind it.
pub proof fn lemma_slxi_round_trip(x: SlxiModel, s: Seq<u8>, pos: int)
    requires
        spec_check_slxi(x) is Ok,
        slxi_wf(x),
        has_at(s, pos, slxi_bytes(x)),
    ensures
        spec_parse_slxi(s, pos) == Ok::<(SlxiModel, int), Error>((x, pos + slxi_bytes(x).len())),
{
    let a = int_bytes(x.chunk_version as int, 4, false);
    let b = int_bytes(x.flags as int, 4, false);
    let c = int_bytes(x.entries.len() as int, 4, false);
    let enc = entries_encs(x.entries);
    let checks = entries_checks(x.entries);
    assert(slxi_bytes(x) == ((a + b) + c) + concat(enc));
    lemma_has_at_split(s, pos, (a + b) + c, concat(enc));
    lemma_has_at_split(s, pos, a + b, c);
    lemma_has_at_split(s, pos, a, b);
    lemma_uint_round_trip(s, pos, x.chunk_version as int, 4);
    lemma_uint_round_trip(s, pos + 4, x.flags as int, 4);
    lemma_uint_round_trip(s, pos + 8, x.entries.len() as int, 4);
    lemma_first_error(checks, 0);
    assert forall|i: int, p: int|
        0 <= i < x.entries.len() && #[trigger] has_at(
            s,
            p,
            enc[i],
        ) implies entry_item()(s, p) == Ok::<(ExtendedChunkModel, int), Error>(
        (x.entries[i], p + enc[i].len()),
    ) by {
        assert(checks[i] is Ok);
        assert(entry_wf(x.entries[i]));
        lemma_entry_round_trip(x.entries[i], s, p);
    }
    lemma_parse_n_round_trip(entry_item(), x.entries, enc, s, pos + 12);
}

/// An entry that was read can be written, its chunk ids are 32-bit
/// numbers, and it stands inside the input.
pub proof fn lemma_parsed_entry(s: Seq<u8>, pos: int, e: ExtendedChunkModel, q: int)
    requires
        spec_parse_entry(s, pos) == Ok::<(ExtendedChunkModel, int), Error>((e, q)),
    ensures
        spec_check_entry(e) is Ok,
        entry_wf(e),
        0 <= pos < q <= s.len(),
{
    let (name, a) = spec_parse_text(s, pos + 6).unwrap();
    crate::chtable::parsed::lemma_parsed_text(s, pos + 6, name, a);
    let (extra, b) = spec_parse_extra(s, a, e.flags).unwrap();
    if flag_extra_data(e.flags) {
        crate::wire::lemma_uint_bytes_at(s, a, 4);
    }
    if flag_chunk_list(e.flags) {
        crate::wire::lemma_uint_bytes_at(s, b, 4);
        let n = crate::wire::uint_at(s, b, 4);
        crate::chtable::parsed::lemma_parsed_ints(
            s,
            b + 4,
            4,
            false,
            n as nat,
            e.chunk_list.unwrap(),
            q,
        );
    }
}

/// An extensions index that was read can be written, and the chunk ids of
/// its entries are 32-bit numbers.
pub proof fn lemma_parsed_slxi(s: Seq<u8>, pos: int, x: SlxiModel, q: int)
    requires
        spec_parse_slxi(s, pos) == Ok::<(SlxiModel, int), Error>((x, q)),
    ensures
        spec_check_slxi(x) is Ok,
        slxi_wf(x),
{
    crate::wire::lemma_uint_bytes_at(s, pos + 8, 4);
    let n = crate::wire::uint_at(s, pos + 8, 4) as nat;
    lemma_parsed_entries(s, pos + 12, n, x.entries, q);
    assert forall|i: int| 0 <= i < x.entries.len() implies entry_wf(#[trigger] x.entries[i]) by {
        assert(entries_checks(x.entries)[i] is Ok);
    }
    lemma_first_error(entries_checks(x.entries), x.entries.len() as int);
}

/// Entries that were read one after the other can be written.
proof fn lemma_parsed_entries(s: Seq<u8>, pos: int, n: nat, es: Seq<ExtendedChunkModel>, q: int)
    requires
        parse_n(entry_item(), s, pos, n) == Ok::<(Seq<ExtendedChunkModel>, int), Error>((es, q)),
    ensures
        es.len() == n,
        forall|i: int|
            0 <= i < es.len() ==> (#[trigger] entries_checks(es)[i]) is Ok && entry_wf(es[i]),
    decreases n,
{
    if n > 0 {
        let (e, p) = spec_parse_entry(s, pos).unwrap();
        lemma_parsed_entry(s, pos, e, p);
        let (rest, r) = parse_n(entry_item(), s, p, (n - 1) as nat).unwrap();
        lemma_parsed_entries(s, p, (n - 1) as nat, rest, r);
        assert(es =~= seq![e] + rest);
        assert forall|i: int| 0 <= i < es.len() implies (#[trigger] entries_checks(es)[i]) is Ok
            && entry_wf(es[i]) by {
            if i > 0 {
                assert(es[i] == rest[i - 1]);
                assert(entries_checks(rest)[i - 1] is Ok);
            }
        }
    }
}

} // verus!
