use crate::chtable::parsed::{lemma_parsed_text, lemma_total_front};
use crate::chtable::property::{
    header_of, keys_short, keys_unique, lemma_struct_count_mono, PropertyModel, schema_len,
    shape_ok, spec_parse_schema, sub_headers_upto, tree_of, tree_ok, wire_props,
};
use crate::chtable::schema::{
    header_len, header_writable, HeaderModel, headers_lens, prop_item, props_lens, SleType,
    spec_parse_header, spec_parse_headers, spec_parse_prop, struct_count, WireProperty,
};
use crate::error::Error;
use crate::repeat::{parse_until_zero, total};
use crate::text::spec_parse_text;
use vstd::prelude::*;

verus! {

/// Properties that were read up to a zero byte: every key is at most
/// `u32::MAX` bytes long, and their wire forms and the zero byte are at most
/// as long as what was read.
pub proof fn lemma_parsed_props(s: Seq<u8>, pos: int, props: Seq<WireProperty>, q: int)
    requires
        parse_until_zero(prop_item(), s, pos) == Ok::<(Seq<WireProperty>, int), Error>(
            (props, q),
        ),
    ensures
        forall|i: int| 0 <= i < props.len() ==> (#[trigger] props[i]).key.len() <= u32::MAX,
        0 <= pos,
        pos + total(props_lens(props)) + 1 <= q <= s.len(),
    decreases s.len() - pos,
{
    if s[pos] != 0 {
        let (p, r) = spec_parse_prop(s, pos).unwrap();
        let (k, r2) = spec_parse_text(s, pos + 1).unwrap();
        lemma_parsed_text(s, pos + 1, k, r2);
        let (rest, t) = parse_until_zero(prop_item(), s, r).unwrap();
        lemma_parsed_props(s, r, rest, t);
        assert(props =~= seq![p] + rest);
        assert forall|i: int| 0 <= i < props.len() implies (#[trigger] props[i]).key.len()
            <= u32::MAX by {
            if i > 0 {
                assert(props[i] == rest[i - 1]);
            }
        }
        lemma_total_front(props_lens(props));
        assert(props_lens(props).drop_first() =~= props_lens(rest));
    } else {
        assert(props_lens(props) =~= Seq::<nat>::empty());
    }
}

/// A wire layout that was read can be written, and its wire form is at
/// most as long as what was read.
pub proof fn lemma_parsed_header(s: Seq<u8>, pos: int, h: HeaderModel, q: int)
    requires
        spec_parse_header(s, pos) == Ok::<(HeaderModel, int), Error>((h, q)),
    ensures
        header_writable(h),
        0 <= pos,
        pos + header_len(h) <= q <= s.len(),
    decreases s.len() - pos, 0nat,
{
    let (props, p) = parse_until_zero(prop_item(), s, pos).unwrap();
    lemma_parsed_props(s, pos, props, p);
    let n = struct_count(props, props.len() as int);
    let (subs, r) = spec_parse_headers(s, p, n).unwrap();
    lemma_parsed_headers(s, p, n, subs, r);
}

/// Wire layouts that were read one after the other can be written, and
/// their wire forms are at most as long as what was read.
pub proof fn lemma_parsed_headers(s: Seq<u8>, pos: int, n: nat, hs: Seq<HeaderModel>, q: int)
    requires
        0 <= pos <= s.len(),
        spec_parse_headers(s, pos, n) == Ok::<(Seq<HeaderModel>, int), Error>((hs, q)),
    ensures
        hs.len() == n,
        forall|k: int| 0 <= k < hs.len() ==> header_writable(#[trigger] hs[k]),
        pos + total(headers_lens(hs)) <= q <= s.len(),
    decreases s.len() - pos, n + 1,
{
    if n > 0 {
        let (h, p) = spec_parse_header(s, pos).unwrap();
        lemma_parsed_header(s, pos, h, p);
        let (rest, r) = spec_parse_headers(s, p, (n - 1) as nat).unwrap();
        lemma_parsed_headers(s, p, (n - 1) as nat, rest, r);
        assert(hs =~= seq![h] + rest);
        assert forall|k: int| 0 <= k < hs.len() implies header_writable(#[trigger] hs[k]) by {
            if k > 0 {
                assert(hs[k] == rest[k - 1]);
            }
        }
        lemma_total_front(headers_lens(hs));
        assert(headers_lens(hs).drop_first() =~= headers_lens(rest));
    } else {
        assert(headers_lens(hs) =~= Seq::<nat>::empty());
    }
}

/// The sub-schemas that the first `n` properties of the schema of a wire
/// layout contribute are the first sub-schemas of the layout.
proof fn lemma_subs_of_tree(h: HeaderModel, n: int)
    requires
        tree_ok(h),
        0 <= n <= h.props.len(),
    ensures
        sub_headers_upto(tree_of(h), n) == h.subs.take(struct_count(h.props, n) as int),
        struct_count(h.props, n) <= h.subs.len(),
    decreases h, n, 0nat,
{
    let tree = tree_of(h);
    lemma_struct_count_mono(h.props, n, h.props.len() as int);
    if n > 0 {
        lemma_subs_of_tree(h, n - 1);
        let c = struct_count(h.props, n - 1) as int;
        if h.props[n - 1].tag == SleType::Struct {
            assert(tree[n - 1].tag == SleType::Struct);
            assert(tree[n - 1].sub == tree_of(h.subs[c]));
            assert(tree_ok(h.subs[c]));
            lemma_tree_of(h.subs[c]);
            assert(h.subs.take(c + 1) =~= h.subs.take(c).push(h.subs[c]));
        } else {
            assert(tree[n - 1].tag != SleType::Struct);
        }
    } else {
        assert(h.subs.take(0) =~= Seq::<HeaderModel>::empty());
    }
}

/// The schema that a wire layout of a schema stands for is built as
/// schemas are, has no key twice, and has that layout as its own.
pub proof fn lemma_tree_of(h: HeaderModel)
    requires
        tree_ok(h),
    ensures
        shape_ok(tree_of(h)),
        keys_unique(tree_of(h)),
        header_of(tree_of(h)) == h,
        header_writable(h) ==> keys_short(tree_of(h)),
    decreases h, h.props.len() + 1, 0nat,
{
    let tree = tree_of(h);
    assert(wire_props(tree) =~= h.props);
    lemma_subs_of_tree(h, h.props.len() as int);
    assert(h.subs.take(h.subs.len() as int) =~= h.subs);
    assert forall|i: int| 0 <= i < tree.len() implies {
        &&& if (#[trigger] tree[i]).tag == SleType::Struct {
            shape_ok(tree[i].sub) && keys_unique(tree[i].sub) && (header_writable(h)
                ==> keys_short(tree[i].sub))
        } else {
            tree[i].sub == Seq::<PropertyModel>::empty()
        }
        &&& header_writable(h) ==> tree[i].key.len() <= u32::MAX
    } by {
        lemma_struct_count_mono(h.props, i + 1, h.props.len() as int);
        if h.props[i].tag == SleType::Struct {
            let c = struct_count(h.props, i) as int;
            assert(tree_ok(h.subs[c]));
            lemma_tree_of(h.subs[c]);
            if header_writable(h) {
                assert(header_writable(h.subs[c]));
            }
        }
        if header_writable(h) {
            assert(h.props[i].key.len() <= u32::MAX);
        }
    }
    assert(shape_ok(tree));
    assert(keys_unique(tree));
    if header_writable(h) {
        assert(keys_short(tree));
    }
}

/// A schema that was read is built as schemas are, has no key twice and no
/// key too long, and its wire form is at most as long as what was read.
pub proof fn lemma_parsed_schema(s: Seq<u8>, pos: int, tree: Seq<PropertyModel>, q: int)
    requires
        spec_parse_schema(s, pos) == Ok::<(Seq<PropertyModel>, int), Error>((tree, q)),
    ensures
        shape_ok(tree),
        keys_unique(tree),
        keys_short(tree),
        0 <= pos,
        pos + schema_len(tree) <= q <= s.len(),
{
    let (h, p) = spec_parse_header(s, pos).unwrap();
    lemma_parsed_header(s, pos, h, p);
    lemma_tree_of(h);
}

} // verus!
