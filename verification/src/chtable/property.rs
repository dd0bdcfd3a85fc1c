use crate::chtable::schema::{
    header_bytes, header_counts_ok, header_len, header_writable, HeaderModel,
    lemma_header_round_trip, lemma_header_view, SleType, spec_parse_header, struct_count,
    StructHeader, StructHeaderProperty, WireProperty,
};
use crate::error::Error;
use crate::repeat::{lemma_views_push, views};
use crate::text::TableString;
use crate::wire::has_at;
use vstd::prelude::*;

verus! {

/// One property of a schema: its key, its type tag and, for a `Struct`
/// property, the schema of its rows (empty for every other tag).
pub struct PropertyModel {
    pub key: Seq<u8>,
    pub tag: SleType,
    pub sub: Seq<PropertyModel>,
}

/// One property of a schema: a key and the type of the values under it.
#[derive(Debug, PartialEq, Eq)]
pub struct TableHeaderProperty {
    pub key: TableString,
    pub data_type: TableDataType,
}

/// The type of the values of one property. A `Struct` holds the schema of
/// its rows.
#[derive(Debug, PartialEq, Eq)]
pub enum TableDataType {
    Int8,
    UInt8,
    Int16,
    UInt16,
    Int32,
    UInt32,
    Int64,
    UInt64,
    StringId,
    Str,
    Struct(Vec<TableHeaderProperty>),
    Int8List,
    UInt8List,
    Int16List,
    UInt16List,
    Int32List,
    UInt32List,
    Int64List,
    UInt64List,
    StringIdList,
}

/// The wire tag of a type.
pub open spec fn type_tag(t: TableDataType) -> SleType {
    match t {
        TableDataType::Int8 => SleType::Int8,
        TableDataType::UInt8 => SleType::UInt8,
        TableDataType::Int16 => SleType::Int16,
        TableDataType::UInt16 => SleType::UInt16,
        TableDataType::Int32 => SleType::Int32,
        TableDataType::UInt32 => SleType::UInt32,
        TableDataType::Int64 => SleType::Int64,
        TableDataType::UInt64 => SleType::UInt64,
        TableDataType::StringId => SleType::StringId,
        TableDataType::Str => SleType::Str,
        TableDataType::Struct(_) => SleType::Struct,
        TableDataType::Int8List => SleType::Int8List,
        TableDataType::UInt8List => SleType::UInt8List,
        TableDataType::Int16List => SleType::Int16List,
        TableDataType::UInt16List => SleType::UInt16List,
        TableDataType::Int32List => SleType::Int32List,
        TableDataType::UInt32List => SleType::UInt32List,
        TableDataType::Int64List => SleType::Int64List,
        TableDataType::UInt64List => SleType::UInt64List,
        TableDataType::StringIdList => SleType::StringIdList,
    }
}

/// What a `TableHeaderProperty` stands for.
pub open spec fn property_model(p: TableHeaderProperty) -> PropertyModel
    decreases p,
{
    PropertyModel {
        key: p.key@,
        tag: type_tag(p.data_type),
        sub: match p.data_type {
            TableDataType::Struct(ps) => Seq::new(
                ps@.len(),
                |i: int|
                    if 0 <= i < ps@.len() {
                        property_model(ps@[i])
                    } else {
                        arbitrary()
                    },
            ),
            _ => Seq::empty(),
        },
    }
}

impl View for TableHeaderProperty {
    type V = PropertyModel;

    open spec fn view(&self) -> PropertyModel {
        property_model(*self)
    }
}

/// The view of a property is made of the views of its parts.
pub proof fn lemma_property_view(p: TableHeaderProperty)
    ensures
        p@.key == p.key@,
        p@.tag == type_tag(p.data_type),
        p.data_type matches TableDataType::Struct(ps) ==> p@.sub == views(ps@),
        !(p.data_type is Struct) ==> p@.sub == Seq::<PropertyModel>::empty(),
{
    match p.data_type {
        TableDataType::Struct(ps) => {
            assert(p@.sub =~= views(ps@));
        },
        _ => {},
    }
}

/// The properties of a schema as they stand on the wire: tag and key.
pub open spec fn wire_props(tree: Seq<PropertyModel>) -> Seq<WireProperty> {
    Seq::new(tree.len(), |i: int| WireProperty { tag: tree[i].tag, key: tree[i].key })
}

/// The wire layout of a schema: its properties, and the layouts of the
/// schemas of its `Struct` properties, in order.
pub open spec fn header_of(tree: Seq<PropertyModel>) -> HeaderModel
    decreases tree, tree.len() + 1,
{
    HeaderModel { props: wire_props(tree), subs: sub_headers_upto(tree, tree.len() as int) }
}

/// The wire layouts of the schemas of the `Struct` properties among the
/// first `n` of `tree`.
pub open spec fn sub_headers_upto(tree: Seq<PropertyModel>, n: int) -> Seq<HeaderModel>
    decreases tree, n,
{
    if n <= 0 || n > tree.len() {
        Seq::empty()
    } else if tree[n - 1].tag == SleType::Struct {
        sub_headers_upto(tree, n - 1).push(header_of(tree[n - 1].sub))
    } else {
        sub_headers_upto(tree, n - 1)
    }
}

/// No two of the properties have the same key.
pub open spec fn keys_distinct(props: Seq<WireProperty>) -> bool {
    forall|i: int, j: int|
        0 <= i < j < props.len() ==> (#[trigger] props[i]).key != (#[trigger] props[j]).key
}

/// A wire layout is that of a schema: it has one sub-schema for each `Struct`
/// property and no key twice, at every depth.
pub open spec fn tree_ok(h: HeaderModel) -> bool
    decreases h,
{
    &&& struct_count(h.props, h.props.len() as int) == h.subs.len()
    &&& keys_distinct(h.props)
    &&& forall|k: int| 0 <= k < h.subs.len() ==> tree_ok(#[trigger] h.subs[k])
}

/// The schema that a wire layout stands for: each `Struct` property takes
/// the next sub-schema, in order.
pub open spec fn tree_of(h: HeaderModel) -> Seq<PropertyModel>
    decreases h,
{
    Seq::new(
        h.props.len(),
        |i: int|
            if 0 <= i < h.props.len() {
                PropertyModel {
                    key: h.props[i].key,
                    tag: h.props[i].tag,
                    sub: if h.props[i].tag == SleType::Struct && struct_count(h.props, i)
                        < h.subs.len() {
                        tree_of(h.subs[struct_count(h.props, i) as int])
                    } else {
                        Seq::empty()
                    },
                }
            } else {
                arbitrary()
            },
    )
}

/// The schema of a wire layout, or `MalformedSchema` where the layout is
/// not that of a schema.
pub open spec fn spec_schema_of(h: HeaderModel) -> Result<Seq<PropertyModel>, Error> {
    if tree_ok(h) {
        Ok(tree_of(h))
    } else {
        Err(Error::MalformedSchema)
    }
}

/// A schema is well formed: no key twice, every key at most `u32::MAX` bytes
/// long, and a sub-schema under the `Struct` properties only, all of this at
/// every depth.
pub open spec fn schema_ok(tree: Seq<PropertyModel>) -> bool
    decreases tree,
{
    &&& keys_distinct(wire_props(tree))
    &&& forall|i: int|
        0 <= i < tree.len() ==> {
            &&& (#[trigger] tree[i]).key.len() <= u32::MAX
            &&& if tree[i].tag == SleType::Struct {
                schema_ok(tree[i].sub)
            } else {
                tree[i].sub == Seq::<PropertyModel>::empty()
            }
        }
}

/// The wire form of a schema.
pub open spec fn schema_bytes(tree: Seq<PropertyModel>) -> Seq<u8> {
    header_bytes(header_of(tree))
}

/// Number of bytes of the wire form of a schema.
pub open spec fn schema_len(tree: Seq<PropertyModel>) -> nat {
    header_len(header_of(tree))
}

/// Reading a schema from `s` at `pos`: its wire layout, then the schema
/// that the layout stands for.
pub open spec fn spec_parse_schema(s: Seq<u8>, pos: int) -> Result<(Seq<PropertyModel>, int), Error> {
    match spec_parse_header(s, pos) {
        Err(e) => Err(e),
        Ok((h, q)) => match spec_schema_of(h) {
            Err(e) => Err(e),
            Ok(t) => Ok((t, q)),
        },
    }
}

/// Counting `Struct` tags: more properties, no fewer tags.
pub proof fn lemma_struct_count_mono(props: Seq<WireProperty>, i: int, j: int)
    requires
        0 <= i <= j <= props.len(),
    ensures
        struct_count(props, i) <= struct_count(props, j),
        struct_count(props, j) <= j,
    decreases j,
{
    if i < j {
        lemma_struct_count_mono(props, i, j - 1);
    } else if j > 0 {
        lemma_struct_count_mono(props, j - 1, j - 1);
    }
}

/// What the first `n` properties of a well-formed schema contribute to its
/// wire layout.
proof fn lemma_subs_upto(tree: Seq<PropertyModel>, n: int)
    requires
        schema_ok(tree),
        0 <= n <= tree.len(),
    ensures
        sub_headers_upto(tree, n).len() == struct_count(wire_props(tree), n),
        forall|k: int|
            0 <= k < sub_headers_upto(tree, n).len() ==> {
                &&& tree_ok(#[trigger] sub_headers_upto(tree, n)[k])
                &&& header_writable(sub_headers_upto(tree, n)[k])
                &&& header_counts_ok(sub_headers_upto(tree, n)[k])
            },
        forall|i: int|
            0 <= i < n && (#[trigger] tree[i]).tag == SleType::Struct ==> {
                &&& struct_count(wire_props(tree), i) < sub_headers_upto(tree, n).len()
                &&& sub_headers_upto(tree, n)[struct_count(wire_props(tree), i) as int]
                    == header_of(tree[i].sub)
                &&& tree_of(header_of(tree[i].sub)) == tree[i].sub
            },
    decreases tree, n, 0nat,
{
    if n > 0 {
        lemma_subs_upto(tree, n - 1);
        let prev = sub_headers_upto(tree, n - 1);
        let cur = sub_headers_upto(tree, n);
        if tree[n - 1].tag == SleType::Struct {
            lemma_header_of(tree[n - 1].sub);
            assert(cur == prev.push(header_of(tree[n - 1].sub)));
            assert forall|k: int| 0 <= k < cur.len() implies {
                &&& tree_ok(#[trigger] cur[k])
                &&& header_writable(cur[k])
                &&& header_counts_ok(cur[k])
            } by {
                if k < prev.len() {
                    assert(cur[k] == prev[k]);
                }
            }
            assert forall|i: int| 0 <= i < n && (#[trigger] tree[i]).tag == SleType::Struct implies {
                &&& struct_count(wire_props(tree), i) < cur.len()
                &&& cur[struct_count(wire_props(tree), i) as int] == header_of(tree[i].sub)
                &&& tree_of(header_of(tree[i].sub)) == tree[i].sub
            } by {
                if i < n - 1 {
                    assert(cur[struct_count(wire_props(tree), i) as int] == prev[struct_count(
                        wire_props(tree),
                        i,
                    ) as int]);
                }
            }
        } else {
            assert(cur == prev);
        }
    }
}

/// The wire layout of a well-formed schema is that of a schema, can be
/// written, and stands for the schema it was made from.
pub proof fn lemma_header_of(tree: Seq<PropertyModel>)
    requires
        schema_ok(tree),
    ensures
        tree_ok(header_of(tree)),
        header_writable(header_of(tree)),
        header_counts_ok(header_of(tree)),
        tree_of(header_of(tree)) == tree,
    decreases tree, tree.len() + 1, 0nat,
{
    let h = header_of(tree);
    lemma_subs_upto(tree, tree.len() as int);
    assert forall|i: int| 0 <= i < h.props.len() implies (#[trigger] h.props[i]).key.len()
        <= u32::MAX by {
        assert(tree[i].key.len() <= u32::MAX);
    }
    let back = tree_of(h);
    assert(back.len() == tree.len());
    assert forall|i: int| 0 <= i < tree.len() implies back[i] == tree[i] by {
        assert(tree[i].key.len() <= u32::MAX);
        lemma_struct_count_mono(h.props, i, h.props.len() as int);
        if tree[i].tag == SleType::Struct {
            assert(back[i].sub == tree[i].sub);
        } else {
            assert(back[i].sub == tree[i].sub);
        }
    }
    assert(back =~= tree);
}

/// Schema linearization is an involution: wherever the wire form of a
/// well-formed schema stands, reading a schema there gives that schema back
/// and stops right behind its wire form.
pub proof fn lemma_schema_round_trip(tree: Seq<PropertyModel>, s: Seq<u8>, pos: int)
    requires
        schema_ok(tree),
        has_at(s, pos, schema_bytes(tree)),
    ensures
        spec_parse_schema(s, pos) == Ok::<(Seq<PropertyModel>, int), Error>(
            (tree, pos + schema_len(tree)),
        ),
{
    lemma_header_of(tree);
    lemma_header_round_trip(header_of(tree), s, pos);
}

/// No key twice among the properties of one schema, at every depth.
pub open spec fn keys_unique(tree: Seq<PropertyModel>) -> bool
    decreases tree,
{
    &&& keys_distinct(wire_props(tree))
    &&& forall|i: int|
        0 <= i < tree.len() && (#[trigger] tree[i]).tag == SleType::Struct ==> keys_unique(
            tree[i].sub,
        )
}

/// Every key is at most `u32::MAX` bytes long, at every depth.
pub open spec fn keys_short(tree: Seq<PropertyModel>) -> bool
    decreases tree,
{
    forall|i: int|
        0 <= i < tree.len() ==> {
            &&& (#[trigger] tree[i]).key.len() <= u32::MAX
            &&& tree[i].tag == SleType::Struct ==> keys_short(tree[i].sub)
        }
}

/// Whether a schema can be written: `MalformedSchema` where a key stands
/// twice in one schema, else `IntegerOverflow` where the length of a key
/// does not fit 32 bits.
pub open spec fn spec_check_schema(tree: Seq<PropertyModel>) -> Result<(), Error> {
    if !keys_unique(tree) {
        Err(Error::MalformedSchema)
    } else if !keys_short(tree) {
        Err(Error::IntegerOverflow)
    } else {
        Ok(())
    }
}

/// A schema has a sub-schema under its `Struct` properties only, at every
/// depth.
pub open spec fn shape_ok(tree: Seq<PropertyModel>) -> bool
    decreases tree,
{
    forall|i: int|
        0 <= i < tree.len() ==> if (#[trigger] tree[i]).tag == SleType::Struct {
            shape_ok(tree[i].sub)
        } else {
            tree[i].sub == Seq::<PropertyModel>::empty()
        }
}

/// A schema is well formed exactly where it is built as schemas are, has
/// no key twice and no key too long.
pub proof fn lemma_schema_ok_model(tree: Seq<PropertyModel>)
    ensures
        schema_ok(tree) == (shape_ok(tree) && keys_unique(tree) && keys_short(tree)),
    decreases tree,
{
    assert forall|i: int| 0 <= i < tree.len() && (#[trigger] tree[i]).tag
        == SleType::Struct implies schema_ok(tree[i].sub) == (shape_ok(tree[i].sub)
        && keys_unique(tree[i].sub) && keys_short(tree[i].sub)) by {
        lemma_schema_ok_model(tree[i].sub);
    }
    if shape_ok(tree) && keys_unique(tree) && keys_short(tree) {
        assert forall|i: int| 0 <= i < tree.len() implies {
            &&& (#[trigger] tree[i]).key.len() <= u32::MAX
            &&& if tree[i].tag == SleType::Struct {
                schema_ok(tree[i].sub)
            } else {
                tree[i].sub == Seq::<PropertyModel>::empty()
            }
        } by {}
        assert(schema_ok(tree));
    }
    if schema_ok(tree) {
        assert(shape_ok(tree));
        assert(keys_unique(tree));
        assert(keys_short(tree));
    }
}

/// A schema held in memory is built as schemas are.
pub proof fn lemma_shape_ok(props: Seq<TableHeaderProperty>)
    ensures
        shape_ok(views(props)),
    decreases props,
{
    let tree = views(props);
    assert forall|i: int| 0 <= i < tree.len() implies (if (#[trigger] tree[i]).tag
        == SleType::Struct {
        shape_ok(tree[i].sub)
    } else {
        tree[i].sub == Seq::<PropertyModel>::empty()
    }) by {
        lemma_property_view(props[i]);
        match props[i].data_type {
            TableDataType::Struct(ps) => {
                lemma_shape_ok(ps@);
            },
            _ => {},
        }
    }
}

/// A schema held in memory is well formed as soon as it has no key twice
/// and no key too long.
pub proof fn lemma_schema_ok(props: Seq<TableHeaderProperty>)
    ensures
        schema_ok(views(props)) == (keys_unique(views(props)) && keys_short(views(props))),
    decreases props,
{
    let tree = views(props);
    assert forall|i: int| 0 <= i < tree.len() implies (if (#[trigger] tree[i]).tag
        == SleType::Struct {
        schema_ok(tree[i].sub) == (keys_unique(tree[i].sub) && keys_short(tree[i].sub))
    } else {
        tree[i].sub == Seq::<PropertyModel>::empty()
    }) by {
        lemma_property_view(props[i]);
        match props[i].data_type {
            TableDataType::Struct(ps) => {
                lemma_schema_ok(ps@);
            },
            _ => {},
        }
    }
    if keys_unique(tree) && keys_short(tree) {
        assert(schema_ok(tree));
    }
    if schema_ok(tree) {
        assert(keys_unique(tree));
        assert(keys_short(tree));
    }
}

impl TableDataType {
    /// The wire tag of the type.
    pub fn tag(&self) -> (t: SleType)
        ensures
            t == type_tag(*self),
    {
        match self {
            TableDataType::Int8 => SleType::Int8,
            TableDataType::UInt8 => SleType::UInt8,
            TableDataType::Int16 => SleType::Int16,
            TableDataType::UInt16 => SleType::UInt16,
            TableDataType::Int32 => SleType::Int32,
            TableDataType::UInt32 => SleType::UInt32,
            TableDataType::Int64 => SleType::Int64,
            TableDataType::UInt64 => SleType::UInt64,
            TableDataType::StringId => SleType::StringId,
            TableDataType::Str => SleType::Str,
            TableDataType::Struct(_) => SleType::Struct,
            TableDataType::Int8List => SleType::Int8List,
            TableDataType::UInt8List => SleType::UInt8List,
            TableDataType::Int16List => SleType::Int16List,
            TableDataType::UInt16List => SleType::UInt16List,
            TableDataType::Int32List => SleType::Int32List,
            TableDataType::UInt32List => SleType::UInt32List,
            TableDataType::Int64List => SleType::Int64List,
            TableDataType::UInt64List => SleType::UInt64List,
            TableDataType::StringIdList => SleType::StringIdList,
        }
    }

    /// The type that the wire tag `t` stands for; for `Struct`, with `sub` as
    /// the schema of its rows.
    pub fn of_tag(t: SleType, sub: Vec<TableHeaderProperty>) -> (r: TableDataType)
        ensures
            type_tag(r) == t,
            t == SleType::Struct ==> r == TableDataType::Struct(sub),
    {
        match t {
            SleType::Int8 => TableDataType::Int8,
            SleType::UInt8 => TableDataType::UInt8,
            SleType::Int16 => TableDataType::Int16,
            SleType::UInt16 => TableDataType::UInt16,
            SleType::Int32 => TableDataType::Int32,
            SleType::UInt32 => TableDataType::UInt32,
            SleType::Int64 => TableDataType::Int64,
            SleType::UInt64 => TableDataType::UInt64,
            SleType::StringId => TableDataType::StringId,
            SleType::Str => TableDataType::Str,
            SleType::Struct => TableDataType::Struct(sub),
            SleType::Int8List => TableDataType::Int8List,
            SleType::UInt8List => TableDataType::UInt8List,
            SleType::Int16List => TableDataType::Int16List,
            SleType::UInt16List => TableDataType::UInt16List,
            SleType::Int32List => TableDataType::Int32List,
            SleType::UInt32List => TableDataType::UInt32List,
            SleType::Int64List => TableDataType::Int64List,
            SleType::UInt64List => TableDataType::UInt64List,
            SleType::StringIdList => TableDataType::StringIdList,
        }
    }
}

/// Whether no two of the properties have the same key.
fn wire_keys_distinct(props: &Vec<StructHeaderProperty>) -> (b: bool)
    ensures
        b == keys_distinct(views(props@)),
{
    let ghost ps = views(props@);
    let mut j: usize = 0;
    while j < props.len()
        invariant
            j <= props.len(),
            ps == views(props@),
            forall|a: int, b: int| 0 <= a < b < j ==> (#[trigger] ps[a]).key != (#[trigger] ps[b]).key,
        decreases props.len() - j,
    {
        let mut i: usize = 0;
        while i < j
            invariant
                i <= j < props.len(),
                ps == views(props@),
                forall|a: int| 0 <= a < i ==> (#[trigger] ps[a]).key != ps[j as int].key,
            decreases j - i,
        {
            if props[i].key.same_as(&props[j].key) {
                assert(ps[i as int].key == ps[j as int].key);
                return false;
            }
            i = i + 1;
        }
        j = j + 1;
    }
    true
}

/// Whether no two of the properties of this one schema have the same key.
fn level_keys_distinct(props: &Vec<TableHeaderProperty>) -> (b: bool)
    ensures
        b == keys_distinct(wire_props(views(props@))),
{
    let ghost ps = wire_props(views(props@));
    assert forall|a: int| 0 <= a < props@.len() implies (#[trigger] ps[a]).key == props@[a].key@ by {
        lemma_property_view(props@[a]);
    }
    let mut j: usize = 0;
    while j < props.len()
        invariant
            j <= props.len(),
            ps == wire_props(views(props@)),
            forall|a: int| 0 <= a < props@.len() ==> (#[trigger] ps[a]).key == props@[a].key@,
            forall|a: int, b: int| 0 <= a < b < j ==> (#[trigger] ps[a]).key != (#[trigger] ps[b]).key,
        decreases props.len() - j,
    {
        let mut i: usize = 0;
        while i < j
            invariant
                i <= j < props.len(),
                ps == wire_props(views(props@)),
                forall|a: int| 0 <= a < props@.len() ==> (#[trigger] ps[a]).key == props@[a].key@,
                forall|a: int| 0 <= a < i ==> (#[trigger] ps[a]).key != ps[j as int].key,
            decreases j - i,
        {
            if props[i].key.same_as(&props[j].key) {
                assert(ps[i as int].key == ps[j as int].key);
                return false;
            }
            i = i + 1;
        }
        j = j + 1;
    }
    true
}

/// Whether no key stands twice in one schema, at every depth.
fn has_unique_keys(props: &Vec<TableHeaderProperty>) -> (b: bool)
    ensures
        b == keys_unique(views(props@)),
    decreases props,
{
    let ghost tree = views(props@);
    if !level_keys_distinct(props) {
        return false;
    }
    let mut i: usize = 0;
    while i < props.len()
        invariant
            i <= props.len(),
            tree == views(props@),
            forall|k: int|
                0 <= k < i && (#[trigger] tree[k]).tag == SleType::Struct ==> keys_unique(
                    tree[k].sub,
                ),
        decreases props.len() - i,
    {
        proof {
            lemma_property_view(props@[i as int]);
        }
        match &props[i].data_type {
            TableDataType::Struct(ps) => {
                if !has_unique_keys(ps) {
                    assert(!keys_unique(tree[i as int].sub));
                    return false;
                }
            },
            _ => {},
        }
        i = i + 1;
    }
    true
}

/// Whether every key is at most `u32::MAX` bytes long, at every depth.
fn has_short_keys(props: &Vec<TableHeaderProperty>) -> (b: bool)
    ensures
        b == keys_short(views(props@)),
    decreases props,
{
    let ghost tree = views(props@);
    let mut i: usize = 0;
    while i < props.len()
        invariant
            i <= props.len(),
            tree == views(props@),
            forall|k: int|
                0 <= k < i ==> {
                    &&& (#[trigger] tree[k]).key.len() <= u32::MAX
                    &&& tree[k].tag == SleType::Struct ==> keys_short(tree[k].sub)
                },
        decreases props.len() - i,
    {
        proof {
            lemma_property_view(props@[i as int]);
        }
        if props[i].key.len() > 0xFFFF_FFFF {
            assert(!(tree[i as int].key.len() <= u32::MAX));
            return false;
        }
        match &props[i].data_type {
            TableDataType::Struct(ps) => {
                if !has_short_keys(ps) {
                    assert(!keys_short(tree[i as int].sub));
                    return false;
                }
            },
            _ => {},
        }
        i = i + 1;
    }
    true
}

/// Whether the schema can be written, and if not, why.
pub fn check_schema(props: &Vec<TableHeaderProperty>) -> (res: Result<(), Error>)
    ensures
        res == spec_check_schema(views(props@)),
        res is Ok ==> schema_ok(views(props@)),
{
    proof {
        lemma_schema_ok(props@);
    }
    if !has_unique_keys(props) {
        Err(Error::MalformedSchema)
    } else if !has_short_keys(props) {
        Err(Error::IntegerOverflow)
    } else {
        Ok(())
    }
}

impl StructHeader {
    /// The schema that this wire layout stands for: each `Struct` property
    /// takes the next sub-schema. `MalformedSchema` where the number of
    /// sub-schemas is not the number of `Struct` properties, or a key
    /// stands twice in one schema.
    pub fn into_properties(&self) -> (res: Result<Vec<TableHeaderProperty>, Error>)
        ensures
            match res {
                Ok(v) => spec_schema_of(self@) == Ok::<Seq<PropertyModel>, Error>(views(v@)),
                Err(e) => spec_schema_of(self@) == Err::<Seq<PropertyModel>, Error>(e),
            },
        decreases self,
    {
        let ghost h = self@;
        proof {
            lemma_header_view(*self);
        }
        if !wire_keys_distinct(&self.properties) {
            return Err(Error::MalformedSchema);
        }
        let mut out: Vec<TableHeaderProperty> = Vec::new();
        let mut i: usize = 0;
        let mut j: usize = 0;
        while i < self.properties.len()
            invariant
                h == self@,
                h.props == views(self.properties@),
                h.subs == views(self.sub_headers@),
                keys_distinct(h.props),
                i <= self.properties.len(),
                out@.len() == i,
                j <= self.sub_headers.len(),
                j == struct_count(h.props, i as int),
                forall|k: int| 0 <= k < j ==> tree_ok(#[trigger] h.subs[k]),
                forall|m: int| 0 <= m < i ==> (#[trigger] out@[m])@ == tree_of(h)[m],
            decreases self.properties.len() - i,
        {
            let p = &self.properties[i];
            let ghost old_out = out@;
            assert(h.props[i as int] == p@);
            proof {
                lemma_struct_count_mono(h.props, i + 1, h.props.len() as int);
            }
            if p.data_type == SleType::Struct {
                if j >= self.sub_headers.len() {
                    return Err(Error::MalformedSchema);
                }
                assert(h.subs[j as int] == self.sub_headers@[j as int]@);
                match self.sub_headers[j].into_properties() {
                    Err(e) => {
                        assert(!tree_ok(h.subs[j as int]));
                        return Err(e);
                    },
                    Ok(sub) => {
                        let q = TableHeaderProperty {
                            key: p.key.duplicate(),
                            data_type: TableDataType::Struct(sub),
                        };
                        proof {
                            lemma_property_view(q);
                        }
                        out.push(q);
                        j = j + 1;
                    },
                }
            } else {
                let q = TableHeaderProperty {
                    key: p.key.duplicate(),
                    data_type: TableDataType::of_tag(p.data_type, Vec::new()),
                };
                proof {
                    lemma_property_view(q);
                }
                out.push(q);
            }
            assert forall|m: int| 0 <= m < i + 1 implies (#[trigger] out@[m])@ == tree_of(h)[m] by {
                if m < i {
                    assert(out@[m] == old_out[m]);
                }
            }
            i = i + 1;
        }
        if j != self.sub_headers.len() {
            return Err(Error::MalformedSchema);
        }
        assert(views(out@) =~= tree_of(h));
        Ok(out)
    }

    /// The wire layout of a schema: its properties, and the layouts of the
    /// schemas of its `Struct` properties, in order.
    pub fn from_properties(props: &Vec<TableHeaderProperty>) -> (r: StructHeader)
        ensures
            r@ == header_of(views(props@)),
        decreases props,
    {
        let ghost tree = views(props@);
        let mut properties: Vec<StructHeaderProperty> = Vec::new();
        let mut sub_headers: Vec<StructHeader> = Vec::new();
        let mut i: usize = 0;
        while i < props.len()
            invariant
                i <= props.len(),
                tree == views(props@),
                properties@.len() == i,
                forall|m: int| 0 <= m < i ==> (#[trigger] properties@[m])@ == wire_props(tree)[m],
                views(sub_headers@) == sub_headers_upto(tree, i as int),
            decreases props.len() - i,
        {
            let p = &props[i];
            let ghost old_props = properties@;
            proof {
                lemma_property_view(props@[i as int]);
            }
            properties.push(StructHeaderProperty { data_type: p.data_type.tag(), key: p.key.duplicate() });
            match &p.data_type {
                TableDataType::Struct(ps) => {
                    let sub = StructHeader::from_properties(ps);
                    proof {
                        lemma_views_push(sub_headers@, sub);
                    }
                    sub_headers.push(sub);
                },
                _ => {},
            }
            assert forall|m: int| 0 <= m < i + 1 implies (#[trigger] properties@[m])@ == wire_props(
                tree,
            )[m] by {
                if m < i {
                    assert(properties@[m] == old_props[m]);
                }
            }
            i = i + 1;
        }
        let header = StructHeader { properties, sub_headers };
        proof {
            lemma_header_view(header);
            assert(header@.props =~= wire_props(tree));
        }
        header
    }
}

/// The outcome `res` of reading a list is the one its specification `model`
/// gives: the same items, seen through their views, and the same end
/// position, or the same error.
pub open spec fn agrees_list<T: View>(
    res: Result<(Vec<T>, usize), Error>,
    model: Result<(Seq<T::V>, int), Error>,
) -> bool {
    match (res, model) {
        (Ok((v, p)), Ok((m, q))) => views(v@) == m && p as int == q,
        (Err(e), Err(f)) => e == f,
        _ => false,
    }
}

/// Reads a schema from `data` at `pos`.
pub fn read_schema(data: &[u8], pos: usize) -> (res: Result<(Vec<TableHeaderProperty>, usize), Error>)
    ensures
        agrees_list(res, spec_parse_schema(data@, pos as int)),
        res matches Ok((_, p)) ==> pos < p <= data.len(),
{
    let (header, p) = match StructHeader::read(data, pos) {
        Ok(r) => r,
        Err(e) => {
            return Err(e);
        },
    };
    match header.into_properties() {
        Ok(v) => Ok((v, p)),
        Err(e) => Err(e),
    }
}

/// Appends the wire form of a well-formed schema to `out`.
pub fn write_schema(props: &Vec<TableHeaderProperty>, out: &mut Vec<u8>)
    requires
        schema_ok(views(props@)),
    ensures
        final(out)@ == old(out)@ + schema_bytes(views(props@)),
{
    let header = StructHeader::from_properties(props);
    proof {
        lemma_header_of(views(props@));
    }
    header.write(out);
}

} // verus!
