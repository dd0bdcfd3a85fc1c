use crate::error::{agrees, Error};
use crate::gamma::gamma_length;
use crate::repeat::{
    concat, lemma_concat_first, lemma_concat_len, lemma_concat_take, lemma_total_take,
    lemma_until_zero_round_trip, lemma_views_empty, lemma_views_push, lemma_with_prefix_done, lemma_with_prefix_push,
    parse_until_zero, total, views, with_prefix,
};
use crate::text::{lemma_text_round_trip, spec_parse_text, TableString, text_bytes, text_len};
use crate::wire::{has_at, lemma_has_at_index, lemma_has_at_split};
use vstd::prelude::*;

verus! {

/// The type tag of a schema property, as one byte on the wire.
#[derive(Debug, Clone, Copy, PartialEq, Eq, Hash, Structural)]
pub enum SleType {
    Int8,
    UInt8,
    Int16,
    UInt16,
    Int32,
    UInt32,
    Int64,
    UInt64,
    StringId,
    Str,
    Struct,
    Int8List,
    UInt8List,
    Int16List,
    UInt16List,
    Int32List,
    UInt32List,
    Int64List,
    UInt64List,
    StringIdList,
}

/// The byte that stands for a type tag.
pub open spec fn tag_byte(t: SleType) -> u8 {
    match t {
        SleType::Int8 => 1,
        SleType::UInt8 => 2,
        SleType::Int16 => 3,
        SleType::UInt16 => 4,
        SleType::Int32 => 5,
        SleType::UInt32 => 6,
        SleType::Int64 => 7,
        SleType::UInt64 => 8,
        SleType::StringId => 9,
        SleType::Int8List => 0x11,
        SleType::UInt8List => 0x12,
        SleType::Int16List => 0x13,
        SleType::UInt16List => 0x14,
        SleType::Int32List => 0x15,
        SleType::UInt32List => 0x16,
        SleType::Int64List => 0x17,
        SleType::UInt64List => 0x18,
        SleType::StringIdList => 0x19,
        SleType::Str => 0x1A,
        SleType::Struct => 0x1B,
    }
}

/// The type tag that a byte stands for, if any.
pub open spec fn spec_from_tag(b: u8) -> Option<SleType> {
    if b == 1 {
        Some(SleType::Int8)
    } else if b == 2 {
        Some(SleType::UInt8)
    } else if b == 3 {
        Some(SleType::Int16)
    } else if b == 4 {
        Some(SleType::UInt16)
    } else if b == 5 {
        Some(SleType::Int32)
    } else if b == 6 {
        Some(SleType::UInt32)
    } else if b == 7 {
        Some(SleType::Int64)
    } else if b == 8 {
        Some(SleType::UInt64)
    } else if b == 9 {
        Some(SleType::StringId)
    } else if b == 0x11 {
        Some(SleType::Int8List)
    } else if b == 0x12 {
        Some(SleType::UInt8List)
    } else if b == 0x13 {
        Some(SleType::Int16List)
    } else if b == 0x14 {
        Some(SleType::UInt16List)
    } else if b == 0x15 {
        Some(SleType::Int32List)
    } else if b == 0x16 {
        Some(SleType::UInt32List)
    } else if b == 0x17 {
        Some(SleType::Int64List)
    } else if b == 0x18 {
        Some(SleType::UInt64List)
    } else if b == 0x19 {
        Some(SleType::StringIdList)
    } else if b == 0x1A {
        Some(SleType::Str)
    } else if b == 0x1B {
        Some(SleType::Struct)
    } else {
        None
    }
}

/// A tag's byte is not zero and stands for that tag alone.
pub proof fn lemma_tag_byte(t: SleType)
    ensures
        tag_byte(t) != 0,
        spec_from_tag(tag_byte(t)) == Some(t),
{
}

impl SleType {
    /// The byte that stands for the tag.
    pub fn to_byte(self) -> (b: u8)
        ensures
            b == tag_byte(self),
    {
        match self {
            SleType::Int8 => 1,
            SleType::UInt8 => 2,
            SleType::Int16 => 3,
            SleType::UInt16 => 4,
            SleType::Int32 => 5,
            SleType::UInt32 => 6,
            SleType::Int64 => 7,
            SleType::UInt64 => 8,
            SleType::StringId => 9,
            SleType::Int8List => 0x11,
            SleType::UInt8List => 0x12,
            SleType::Int16List => 0x13,
            SleType::UInt16List => 0x14,
            SleType::Int32List => 0x15,
            SleType::UInt32List => 0x16,
            SleType::Int64List => 0x17,
            SleType::UInt64List => 0x18,
            SleType::StringIdList => 0x19,
            SleType::Str => 0x1A,
            SleType::Struct => 0x1B,
        }
    }

    /// The tag that `b` stands for, if any.
    pub fn from_byte(b: u8) -> (t: Option<SleType>)
        ensures
            t == spec_from_tag(b),
    {
        if b == 1 {
            Some(SleType::Int8)
        } else if b == 2 {
            Some(SleType::UInt8)
        } else if b == 3 {
            Some(SleType::Int16)
        } else if b == 4 {
            Some(SleType::UInt16)
        } else if b == 5 {
            Some(SleType::Int32)
        } else if b == 6 {
            Some(SleType::UInt32)
        } else if b == 7 {
            Some(SleType::Int64)
        } else if b == 8 {
            Some(SleType::UInt64)
        } else if b == 9 {
            Some(SleType::StringId)
        } else if b == 0x11 {
            Some(SleType::Int8List)
        } else if b == 0x12 {
            Some(SleType::UInt8List)
        } else if b == 0x13 {
            Some(SleType::Int16List)
        } else if b == 0x14 {
            Some(SleType::UInt16List)
        } else if b == 0x15 {
            Some(SleType::Int32List)
        } else if b == 0x16 {
            Some(SleType::UInt32List)
        } else if b == 0x17 {
            Some(SleType::Int64List)
        } else if b == 0x18 {
            Some(SleType::UInt64List)
        } else if b == 0x19 {
            Some(SleType::StringIdList)
        } else if b == 0x1A {
            Some(SleType::Str)
        } else if b == 0x1B {
            Some(SleType::Struct)
        } else {
            None
        }
    }
}

/// A property as it stands in a schema on the wire: its tag and its key.
pub struct WireProperty {
    pub tag: SleType,
    pub key: Seq<u8>,
}

/// A schema as it stands on the wire: its properties, and behind them one
/// schema for each property tagged `Struct`, in order.
pub struct HeaderModel {
    pub props: Seq<WireProperty>,
    pub subs: Seq<HeaderModel>,
}

/// One property of a schema on the wire.
#[derive(Debug, Clone, PartialEq, Eq)]
pub struct StructHeaderProperty {
    pub data_type: SleType,
    pub key: TableString,
}

impl View for StructHeaderProperty {
    type V = WireProperty;

    open spec fn view(&self) -> WireProperty {
        WireProperty { tag: self.data_type, key: self.key@ }
    }
}

/// A schema in its wire layout.
#[derive(Debug, PartialEq, Eq)]
pub struct StructHeader {
    pub properties: Vec<StructHeaderProperty>,
    pub sub_headers: Vec<StructHeader>,
}

/// What a `StructHeader` stands for.
pub open spec fn header_model(h: StructHeader) -> HeaderModel
    decreases h,
{
    HeaderModel {
        props: views(h.properties@),
        subs: Seq::new(
            h.sub_headers@.len(),
            |i: int|
                if 0 <= i < h.sub_headers@.len() {
                    header_model(h.sub_headers@[i])
                } else {
                    arbitrary()
                },
        ),
    }
}

impl View for StructHeader {
    type V = HeaderModel;

    open spec fn view(&self) -> HeaderModel {
        header_model(*self)
    }
}

/// The view of a header is made of the views of its parts.
pub proof fn lemma_header_view(h: StructHeader)
    ensures
        h@.props == views(h.properties@),
        h@.subs == views(h.sub_headers@),
{
    assert(h@.subs =~= views(h.sub_headers@));
}

/// The wire form of one property: tag byte, then the key as a string.
pub open spec fn prop_bytes(p: WireProperty) -> Seq<u8> {
    seq![tag_byte(p.tag)] + text_bytes(p.key)
}

/// Number of bytes of the wire form of one property.
pub open spec fn prop_len(p: WireProperty) -> nat {
    1 + text_len(p.key)
}

/// The wire forms of the properties, each on its own.
pub open spec fn props_encs(props: Seq<WireProperty>) -> Seq<Seq<u8>> {
    Seq::new(props.len(), |i: int| prop_bytes(props[i]))
}

/// The lengths of the wire forms of the properties.
pub open spec fn props_lens(props: Seq<WireProperty>) -> Seq<nat> {
    Seq::new(props.len(), |i: int| prop_len(props[i]))
}

/// How many of the first `n` of `props` are tagged `Struct`.
pub open spec fn struct_count(props: Seq<WireProperty>, n: int) -> nat
    decreases n,
{
    if n <= 0 || n > props.len() {
        0
    } else {
        struct_count(props, n - 1) + if props[n - 1].tag == SleType::Struct {
            1nat
        } else {
            0nat
        }
    }
}

/// The wire form of a schema: its properties, a zero byte, then the
/// schemas of its `Struct` properties, each in this same form.
pub open spec fn header_bytes(h: HeaderModel) -> Seq<u8>
    decreases h, 0nat,
{
    concat(props_encs(h.props)) + seq![0u8] + concat(headers_encs(h.subs))
}

/// The wire forms of the schemas `hs`, each on its own.
pub open spec fn headers_encs(hs: Seq<HeaderModel>) -> Seq<Seq<u8>>
    decreases hs, 1nat,
{
    Seq::new(
        hs.len(),
        |k: int|
            if 0 <= k < hs.len() {
                header_bytes(hs[k])
            } else {
                Seq::empty()
            },
    )
}

/// Number of bytes of the wire form of a schema: the sum over its
/// properties, one for the zero byte, and the sum over its sub-schemas.
pub open spec fn header_len(h: HeaderModel) -> nat
    decreases h, 0nat,
{
    total(props_lens(h.props)) + 1 + total(headers_lens(h.subs))
}

/// The lengths of the wire forms of the schemas `hs`.
pub open spec fn headers_lens(hs: Seq<HeaderModel>) -> Seq<nat>
    decreases hs, 1nat,
{
    Seq::new(
        hs.len(),
        |k: int|
            if 0 <= k < hs.len() {
                header_len(hs[k])
            } else {
                0nat
            },
    )
}

/// Every key of the schema, at every depth, is at most `u32::MAX` bytes
/// long, so that its length can be written.
pub open spec fn header_writable(h: HeaderModel) -> bool
    decreases h,
{
    &&& forall|i: int| 0 <= i < h.props.len() ==> (#[trigger] h.props[i]).key.len() <= u32::MAX
    &&& forall|k: int| 0 <= k < h.subs.len() ==> header_writable(#[trigger] h.subs[k])
}

/// Reading one property from `s` at `pos`, where no zero byte stands.
pub open spec fn spec_parse_prop(s: Seq<u8>, pos: int) -> Result<(WireProperty, int), Error> {
    if pos < 0 || pos >= s.len() {
        Err(Error::Truncated)
    } else {
        match spec_from_tag(s[pos]) {
            None => Err(Error::MalformedSchema),
            Some(t) => match spec_parse_text(s, pos + 1) {
                Err(e) => Err(e),
                Ok((k, q)) => Ok((WireProperty { tag: t, key: k }, q)),
            },
        }
    }
}

/// `spec_parse_prop` as a value.
pub open spec fn prop_item() -> spec_fn(Seq<u8>, int) -> Result<(WireProperty, int), Error> {
    |s: Seq<u8>, pos: int| spec_parse_prop(s, pos)
}

/// Reading one schema in its wire layout from `s` at `pos`: properties up
/// to a zero byte, then as many schemas as there are `Struct` properties.
pub open spec fn spec_parse_header(s: Seq<u8>, pos: int) -> Result<(HeaderModel, int), Error>
    decreases s.len() - pos, 0nat,
{
    match parse_until_zero(prop_item(), s, pos) {
        Err(e) => Err(e),
        Ok((props, q)) => if q <= pos || q > s.len() {
            Err(Error::Truncated)
        } else {
            match spec_parse_headers(s, q, struct_count(props, props.len() as int)) {
                Err(e) => Err(e),
                Ok((subs, r)) => Ok((HeaderModel { props, subs }, r)),
            }
        },
    }
}

/// Reading `n` schemas one after the other from `s` at `pos`.
pub open spec fn spec_parse_headers(s: Seq<u8>, pos: int, n: nat) -> Result<
    (Seq<HeaderModel>, int),
    Error,
>
    decreases s.len() - pos, n + 1,
{
    if n == 0 {
        Ok((Seq::empty(), pos))
    } else if pos < 0 || pos > s.len() {
        Err(Error::Truncated)
    } else {
        match spec_parse_header(s, pos) {
            Err(e) => Err(e),
            Ok((h, q)) => if q < pos || q > s.len() {
                Err(Error::Truncated)
            } else {
                with_prefix(seq![h], spec_parse_headers(s, q, (n - 1) as nat))
            },
        }
    }
}

impl StructHeaderProperty {
    /// Reads one property from `data` at `pos`.
    pub fn read(data: &[u8], pos: usize) -> (res: Result<(StructHeaderProperty, usize), Error>)
        ensures
            agrees(res, spec_parse_prop(data@, pos as int)),
            res matches Ok((_, p)) ==> pos < p <= data.len(),
    {
        if pos >= data.len() {
            return Err(Error::Truncated);
        }
        let data_type = match SleType::from_byte(data[pos]) {
            Some(t) => t,
            None => {
                return Err(Error::MalformedSchema);
            },
        };
        match TableString::read(data, pos + 1) {
            Ok((key, p)) => Ok((StructHeaderProperty { data_type, key }, p)),
            Err(e) => Err(e),
        }
    }

    /// Appends the wire form to `out`.
    pub fn write(&self, out: &mut Vec<u8>)
        requires
            self@.key.len() <= u32::MAX,
        ensures
            final(out)@ == old(out)@ + prop_bytes(self@),
    {
        out.push(self.data_type.to_byte());
        self.key.write(out);
        assert(out@ =~= old(out)@ + prop_bytes(self@));
    }

    /// Number of bytes of the wire form.
    pub fn byte_len(&self) -> (n: usize)
        requires
            self@.key.len() <= u32::MAX,
            prop_len(self@) <= usize::MAX,
        ensures
            n == prop_len(self@),
    {
        1 + self.key.byte_len()
    }
}

/// The wire form of a schema is as long as `header_len` says.
pub proof fn lemma_header_bytes_len(h: HeaderModel)
    ensures
        header_bytes(h).len() == header_len(h),
    decreases h,
{
    lemma_concat_len(props_encs(h.props));
    assert(props_encs(h.props).map_values(|e: Seq<u8>| e.len()) =~= props_lens(h.props));
    lemma_concat_len(headers_encs(h.subs));
    assert forall|k: int| 0 <= k < h.subs.len() implies (#[trigger] headers_encs(h.subs)[k]).len()
        == headers_lens(h.subs)[k] by {
        lemma_header_bytes_len(h.subs[k]);
    }
    assert(headers_encs(h.subs).map_values(|e: Seq<u8>| e.len()) =~= headers_lens(h.subs));
}

impl StructHeader {
    /// Reads one schema in its wire layout from `data` at `pos`.
    pub fn read(data: &[u8], pos: usize) -> (res: Result<(StructHeader, usize), Error>)
        ensures
            agrees(res, spec_parse_header(data@, pos as int)),
            res matches Ok((_, p)) ==> pos < p <= data.len(),
        decreases data.len() - pos,
    {
        let ghost s = data@;
        let mut properties: Vec<StructHeaderProperty> = Vec::new();
        let mut p: usize = pos;
        let mut n: usize = 0;
        proof {
            lemma_views_empty(properties@);
            assert(parse_until_zero(prop_item(), s, pos as int) == with_prefix(
                views(properties@),
                parse_until_zero(prop_item(), s, p as int),
            )) by {
                match parse_until_zero(prop_item(), s, pos as int) {
                    Ok((vs, q)) => {
                        assert(Seq::<WireProperty>::empty() + vs =~= vs);
                    },
                    Err(_) => {},
                }
            }
        }
        while p < data.len() && data[p] != 0
            invariant
                s == data@,
                pos <= p,
                n <= properties@.len() <= p - pos,
                n == struct_count(views(properties@), properties@.len() as int),
                parse_until_zero(prop_item(), s, pos as int) == with_prefix(
                    views(properties@),
                    parse_until_zero(prop_item(), s, p as int),
                ),
            decreases data.len() - p,
        {
            match StructHeaderProperty::read(data, p) {
                Err(e) => {
                    return Err(e);
                },
                Ok((v, q)) => {
                    proof {
                        lemma_with_prefix_push(
                            views(properties@),
                            v@,
                            parse_until_zero(prop_item(), s, q as int),
                        );
                        lemma_views_push(properties@, v);
                        assert(views(properties@.push(v)).drop_last() =~= views(properties@));
                        lemma_struct_count_prefix(
                            views(properties@.push(v)),
                            views(properties@),
                            properties@.len() as int,
                        );
                    }
                    if v.data_type == SleType::Struct {
                        n = n + 1;
                    }
                    properties.push(v);
                    p = q;
                },
            }
        }
        if p >= data.len() {
            return Err(Error::Truncated);
        }
        let q: usize = p + 1;
        proof {
            lemma_with_prefix_done(views(properties@), q as int);
        }
        let mut sub_headers: Vec<StructHeader> = Vec::new();
        let mut k: usize = 0;
        p = q;
        proof {
            lemma_views_empty(sub_headers@);
            assert(spec_parse_headers(s, q as int, n as nat) == with_prefix(
                views(sub_headers@),
                spec_parse_headers(s, p as int, (n - k) as nat),
            )) by {
                match spec_parse_headers(s, q as int, n as nat) {
                    Ok((vs, r)) => {
                        assert(Seq::<HeaderModel>::empty() + vs =~= vs);
                    },
                    Err(_) => {},
                }
            }
        }
        while k < n
            invariant
                s == data@,
                pos < q <= p <= data.len(),
                k <= n,
                sub_headers@.len() == k,
                n == struct_count(views(properties@), properties@.len() as int),
                parse_until_zero(prop_item(), s, pos as int) == Ok::<
                    (Seq<WireProperty>, int),
                    Error,
                >((views(properties@), q as int)),
                spec_parse_headers(s, q as int, n as nat) == with_prefix(
                    views(sub_headers@),
                    spec_parse_headers(s, p as int, (n - k) as nat),
                ),
            decreases n - k,
        {
            match StructHeader::read(data, p) {
                Err(e) => {
                    return Err(e);
                },
                Ok((h, r)) => {
                    proof {
                        lemma_with_prefix_push(
                            views(sub_headers@),
                            h@,
                            spec_parse_headers(s, r as int, (n - k - 1) as nat),
                        );
                        lemma_views_push(sub_headers@, h);
                    }
                    sub_headers.push(h);
                    p = r;
                    k = k + 1;
                },
            }
        }
        proof {
            lemma_with_prefix_done(views(sub_headers@), p as int);
        }
        let header = StructHeader { properties, sub_headers };
        proof {
            lemma_header_view(header);
        }
        Ok((header, p))
    }

    /// Appends the wire form to `out`.
    pub fn write(&self, out: &mut Vec<u8>)
        requires
            header_writable(self@),
        ensures
            final(out)@ == old(out)@ + header_bytes(self@),
        decreases self,
    {
        proof {
            lemma_header_view(*self);
        }
        let ghost props = self@.props;
        let ghost subs = self@.subs;
        let mut i: usize = 0;
        proof {
            lemma_concat_take(props_encs(props), 0);
        }
        while i < self.properties.len()
            invariant
                i <= self.properties.len(),
                props == views(self.properties@),
                header_writable(self@),
                props == self@.props,
                out@ == old(out)@ + concat(props_encs(props).take(i as int)),
            decreases self.properties.len() - i,
        {
            assert(props[i as int] == self.properties@[i as int]@);
            proof {
                lemma_concat_take(props_encs(props), i as int);
            }
            self.properties[i].write(out);
            i = i + 1;
            assert(out@ =~= old(out)@ + concat(props_encs(props).take(i as int)));
        }
        proof {
            lemma_concat_take(props_encs(props), i as int);
        }
        out.push(0u8);
        let ghost mid = out@;
        let mut k: usize = 0;
        proof {
            lemma_concat_take(headers_encs(subs), 0);
        }
        while k < self.sub_headers.len()
            invariant
                k <= self.sub_headers.len(),
                subs == views(self.sub_headers@),
                subs == self@.subs,
                header_writable(self@),
                out@ == mid + concat(headers_encs(subs).take(k as int)),
            decreases self.sub_headers.len() - k,
        {
            assert(subs[k as int] == self.sub_headers@[k as int]@);
            proof {
                lemma_concat_take(headers_encs(subs), k as int);
            }
            self.sub_headers[k].write(out);
            k = k + 1;
            assert(out@ =~= mid + concat(headers_encs(subs).take(k as int)));
        }
        proof {
            lemma_concat_take(headers_encs(subs), k as int);
        }
        assert(out@ =~= old(out)@ + header_bytes(self@));
    }

    /// Number of bytes of the wire form.
    pub fn byte_len(&self) -> (n: usize)
        requires
            header_writable(self@),
            header_len(self@) <= usize::MAX,
        ensures
            n == header_len(self@),
        decreases self,
    {
        proof {
            lemma_header_view(*self);
        }
        let ghost props = self@.props;
        let ghost subs = self@.subs;
        let mut n: usize = 0;
        let mut i: usize = 0;
        while i < self.properties.len()
            invariant
                i <= self.properties.len(),
                props == views(self.properties@),
                props == self@.props,
                header_writable(self@),
                header_len(self@) <= usize::MAX,
                n == total(props_lens(props).take(i as int)),
            decreases self.properties.len() - i,
        {
            assert(props[i as int] == self.properties@[i as int]@);
            proof {
                lemma_total_take(props_lens(props), i as int);
            }
            n = n + self.properties[i].byte_len();
            i = i + 1;
        }
        proof {
            lemma_total_take(props_lens(props), i as int);
        }
        n = n + 1;
        let ghost mid = n;
        let mut k: usize = 0;
        while k < self.sub_headers.len()
            invariant
                k <= self.sub_headers.len(),
                subs == views(self.sub_headers@),
                subs == self@.subs,
                header_writable(self@),
                header_len(self@) <= usize::MAX,
                mid == total(props_lens(props)) + 1,
                props == self@.props,
                n == mid + total(headers_lens(subs).take(k as int)),
            decreases self.sub_headers.len() - k,
        {
            assert(subs[k as int] == self.sub_headers@[k as int]@);
            proof {
                lemma_total_take(headers_lens(subs), k as int);
            }
            n = n + self.sub_headers[k].byte_len();
            k = k + 1;
        }
        proof {
            lemma_total_take(headers_lens(subs), k as int);
        }
        n
    }
}

impl StructHeader {
    /// Number of bytes of the wire form, when it is at most `limit`.
    pub fn bounded_len(&self, limit: usize) -> (r: Option<usize>)
        requires
            header_writable(self@),
        ensures
            match r {
                Some(n) => n == header_len(self@) && n <= limit,
                None => header_len(self@) > limit,
            },
        decreases self,
    {
        proof {
            lemma_header_view(*self);
        }
        let ghost props = self@.props;
        let ghost subs = self@.subs;
        let mut n: usize = 0;
        let mut i: usize = 0;
        while i < self.properties.len()
            invariant
                i <= self.properties.len(),
                props == views(self.properties@),
                props == self@.props,
                header_writable(self@),
                n == total(props_lens(props).take(i as int)),
                n <= limit,
            decreases self.properties.len() - i,
        {
            assert(props[i as int] == self.properties@[i as int]@);
            proof {
                lemma_total_take(props_lens(props), i as int);
            }
            let k = self.properties[i].key.len();
            let g = gamma_length(k as u32) as usize;
            if k > limit || 1 + g > limit - k || n > limit - (1 + g + k) {
                return None;
            }
            n = n + (1 + g + k);
            i = i + 1;
        }
        proof {
            lemma_total_take(props_lens(props), i as int);
        }
        if n >= limit {
            return None;
        }
        n = n + 1;
        let ghost mid = n;
        let mut k: usize = 0;
        while k < self.sub_headers.len()
            invariant
                k <= self.sub_headers.len(),
                subs == views(self.sub_headers@),
                subs == self@.subs,
                header_writable(self@),
                mid == total(props_lens(props)) + 1,
                props == self@.props,
                n == mid + total(headers_lens(subs).take(k as int)),
                n <= limit,
            decreases self.sub_headers.len() - k,
        {
            assert(subs[k as int] == self.sub_headers@[k as int]@);
            proof {
                lemma_total_take(headers_lens(subs), k as int);
            }
            let x = match self.sub_headers[k].bounded_len(limit) {
                Some(x) => x,
                None => {
                    return None;
                },
            };
            if n > limit - x {
                return None;
            }
            n = n + x;
            k = k + 1;
        }
        proof {
            lemma_total_take(headers_lens(subs), k as int);
        }
        Some(n)
    }
}

/// Counting the `Struct` tags among the first `n` properties looks at those
/// properties only.
pub proof fn lemma_struct_count_prefix(a: Seq<WireProperty>, b: Seq<WireProperty>, n: int)
    requires
        0 <= n <= a.len(),
        n <= b.len(),
        forall|i: int| 0 <= i < n ==> a[i] == b[i],
    ensures
        struct_count(a, n) == struct_count(b, n),
    decreases n,
{
    if n > 0 {
        lemma_struct_count_prefix(a, b, n - 1);
    }
}

/// The schema has as many sub-schemas as `Struct` properties, at every
/// depth.
pub open spec fn header_counts_ok(h: HeaderModel) -> bool
    decreases h,
{
    &&& struct_count(h.props, h.props.len() as int) == h.subs.len()
    &&& forall|k: int| 0 <= k < h.subs.len() ==> header_counts_ok(#[trigger] h.subs[k])
}

/// Wherever the wire form of a property stands, reading there gives the
/// property back and stops right behind it.
pub proof fn lemma_prop_round_trip(s: Seq<u8>, pos: int, p: WireProperty)
    requires
        p.key.len() <= u32::MAX,
        has_at(s, pos, prop_bytes(p)),
    ensures
        spec_parse_prop(s, pos) == Ok::<(WireProperty, int), Error>((p, pos + prop_len(p))),
        prop_bytes(p).len() == prop_len(p),
        prop_bytes(p)[0] != 0,
{
    lemma_has_at_split(s, pos, seq![tag_byte(p.tag)], text_bytes(p.key));
    lemma_has_at_index(s, pos, seq![tag_byte(p.tag)], 0);
    lemma_tag_byte(p.tag);
    lemma_text_round_trip(s, pos + 1, p.key);
}

/// Reading back schemas that stand one after the other, given that each of
/// them is read back wherever it stands.
proof fn lemma_headers_round_trip(hs: Seq<HeaderModel>, enc: Seq<Seq<u8>>, s: Seq<u8>, pos: int)
    requires
        enc.len() == hs.len(),
        has_at(s, pos, concat(enc)),
        forall|k: int, p: int|
            0 <= k < hs.len() && #[trigger] has_at(s, p, enc[k]) ==> spec_parse_header(s, p)
                == Ok::<(HeaderModel, int), Error>((hs[k], p + enc[k].len())),
    ensures
        spec_parse_headers(s, pos, hs.len()) == Ok::<(Seq<HeaderModel>, int), Error>(
            (hs, pos + concat(enc).len()),
        ),
    decreases hs.len(),
{
    if hs.len() == 0 {
        assert(hs =~= Seq::<HeaderModel>::empty());
        assert(enc =~= Seq::<Seq<u8>>::empty());
        lemma_concat_take(enc, 0);
    } else {
        lemma_concat_first(enc);
        lemma_has_at_split(s, pos, enc[0], concat(enc.drop_first()));
        assert(has_at(s, pos, enc[0]));
        let q = pos + enc[0].len();
        let hs1 = hs.drop_first();
        let enc1 = enc.drop_first();
        assert forall|k: int, p: int|
            0 <= k < hs1.len() && #[trigger] has_at(s, p, enc1[k]) implies spec_parse_header(s, p)
            == Ok::<(HeaderModel, int), Error>((hs1[k], p + enc1[k].len())) by {
            assert(enc1[k] == enc[k + 1]);
            assert(has_at(s, p, enc[k + 1]));
        }
        lemma_headers_round_trip(hs1, enc1, s, q);
        assert(seq![hs[0]] + hs1 =~= hs);
    }
}

/// Wherever the wire form of a schema stands, reading there gives the
/// schema back and stops right behind it.
pub proof fn lemma_header_round_trip(h: HeaderModel, s: Seq<u8>, pos: int)
    requires
        header_writable(h),
        header_counts_ok(h),
        has_at(s, pos, header_bytes(h)),
    ensures
        spec_parse_header(s, pos) == Ok::<(HeaderModel, int), Error>((h, pos + header_len(h))),
    decreases h,
{
    lemma_header_bytes_len(h);
    let a = concat(props_encs(h.props));
    let b = concat(headers_encs(h.subs));
    lemma_has_at_split(s, pos, a + seq![0u8], b);
    let encs = props_encs(h.props);
    assert forall|i: int| 0 <= i < encs.len() implies (#[trigger] encs[i]).len() > 0 && encs[i][0]
        != 0 by {
        lemma_tag_byte(h.props[i].tag);
    }
    assert forall|i: int, p: int|
        0 <= i < h.props.len() && #[trigger] has_at(s, p, encs[i]) implies prop_item()(s, p)
        == Ok::<(WireProperty, int), Error>((h.props[i], p + encs[i].len())) by {
        lemma_prop_round_trip(s, p, h.props[i]);
    }
    lemma_until_zero_round_trip(prop_item(), h.props, encs, s, pos);
    let q = pos + a.len() + 1;
    let subs = headers_encs(h.subs);
    assert forall|k: int, p: int|
        0 <= k < h.subs.len() && #[trigger] has_at(s, p, subs[k]) implies spec_parse_header(s, p)
        == Ok::<(HeaderModel, int), Error>((h.subs[k], p + subs[k].len())) by {
        lemma_header_round_trip(h.subs[k], s, p);
        lemma_header_bytes_len(h.subs[k]);
    }
    lemma_headers_round_trip(h.subs, subs, s, q);
}

} // verus!
