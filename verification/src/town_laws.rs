use crate::charray::{
    city_bytes, city_cargo_bytes, city_growth_bytes, city_head_bytes, city_multi_bytes,
    city_override_bytes, city_ratings_bytes, CityModel, ints_at, multi_len, override_len, Received,
    received_at, received_bytes, received_encs, spec_check_city, spec_parse_city, Supplied,
    supplied_at, supplied_bytes, supplied_encs,
};
use crate::chtable::laws::lemma_list_bytes_len;
use crate::chtable::value::{ints_encs, ints_fit};
use crate::error::Error;
use crate::jgr::{ids_bytes, lemma_ids_round_trip, spec_parse_ids};
use crate::repeat::{concat, lemma_concat_nth, lemma_concat_uniform};
use crate::text::{lemma_text_bytes_len, lemma_text_round_trip, text_bytes, text_len};
use crate::wire::{
    has_at, int_at, int_bytes, is_width, lemma_has_at_index, lemma_has_at_split,
    lemma_int_bytes_len, lemma_int_round_trip, lemma_uint_round_trip, uint_at,
};
use vstd::prelude::*;

verus! {

/// Every number of the lists of the record is one of the type of its
/// list. Every record held in memory is so.
pub open spec fn city_wf(c: CityModel) -> bool {
    &&& ints_fit(c.ratings, 2, false)
    &&& ints_fit(c.unwanted, 1, false)
    &&& ints_fit(c.goal, 4, false)
    &&& ints_fit(c.psa_list, 4, false)
}

/// Where integers of `w` bytes stand one after the other, reading them at
/// their places gives them back.
pub proof fn lemma_ints_at(xs: Seq<int>, w: int, signed: bool, s: Seq<u8>, pos: int)
    requires
        is_width(w),
        ints_fit(xs, w, signed),
        has_at(s, pos, concat(ints_encs(xs, w, signed))),
    ensures
        ints_at(s, pos, xs.len() as int, w, signed) == xs,
        concat(ints_encs(xs, w, signed)).len() == xs.len() * w,
{
    let enc = ints_encs(xs, w, signed);
    lemma_list_bytes_len(xs, w, signed);
    assert forall|k: int| 0 <= k < enc.len() implies (#[trigger] enc[k]).len() == w by {
        lemma_int_bytes_len(xs[k], w, signed);
    }
    let got = ints_at(s, pos, xs.len() as int, w, signed);
    assert forall|i: int| 0 <= i < xs.len() implies got[i] == xs[i] by {
        lemma_concat_nth(enc, w, s, pos, i);
        lemma_int_round_trip(s, pos + i * w, xs[i], w, signed);
    }
    assert(got =~= xs);
}

/// Where the sixteen bytes of four counters stand, reading there gives the
/// counters back.
pub proof fn lemma_supplied_at(x: Supplied, s: Seq<u8>, pos: int)
    requires
        has_at(s, pos, supplied_bytes(x)),
    ensures
        supplied_at(s, pos) == x,
        supplied_bytes(x).len() == 16,
{
    let a = int_bytes(x.old_max as int, 4, false);
    let b = int_bytes(x.new_max as int, 4, false);
    let c = int_bytes(x.old_act as int, 4, false);
    let d = int_bytes(x.new_act as int, 4, false);
    assert(supplied_bytes(x) == ((a + b) + c) + d);
    lemma_has_at_split(s, pos, (a + b) + c, d);
    lemma_has_at_split(s, pos, a + b, c);
    lemma_has_at_split(s, pos, a, b);
    lemma_uint_round_trip(s, pos, x.old_max as int, 4);
    lemma_uint_round_trip(s, pos + 4, x.new_max as int, 4);
    lemma_uint_round_trip(s, pos + 8, x.old_act as int, 4);
    lemma_uint_round_trip(s, pos + 12, x.new_act as int, 4);
}

/// Where the eight bytes of four counters stand, reading there gives the
/// counters back.
pub proof fn lemma_received_at(x: Received, s: Seq<u8>, pos: int)
    requires
        has_at(s, pos, received_bytes(x)),
    ensures
        received_at(s, pos) == x,
        received_bytes(x).len() == 8,
{
    let a = int_bytes(x.old_max as int, 2, false);
    let b = int_bytes(x.new_max as int, 2, false);
    let c = int_bytes(x.old_act as int, 2, false);
    let d = int_bytes(x.new_act as int, 2, false);
    assert(received_bytes(x) == ((a + b) + c) + d);
    lemma_has_at_split(s, pos, (a + b) + c, d);
    lemma_has_at_split(s, pos, a + b, c);
    lemma_has_at_split(s, pos, a, b);
    lemma_uint_round_trip(s, pos, x.old_max as int, 2);
    lemma_uint_round_trip(s, pos + 2, x.new_max as int, 2);
    lemma_uint_round_trip(s, pos + 4, x.old_act as int, 2);
    lemma_uint_round_trip(s, pos + 6, x.new_act as int, 2);
}

/// Where the counters of the cargoes stand one after the other, reading
/// them at their places gives them back.
proof fn lemma_supplied_run(xs: Seq<Supplied>, s: Seq<u8>, pos: int)
    requires
        has_at(s, pos, concat(supplied_encs(xs))),
    ensures
        Seq::new(xs.len(), |i: int| supplied_at(s, pos + 16 * i)) == xs,
        concat(supplied_encs(xs)).len() == 16 * xs.len(),
{
    let enc = supplied_encs(xs);
    assert forall|k: int| 0 <= k < enc.len() implies (#[trigger] enc[k]).len() == 16 by {
        let b = enc[k];
        assert(has_at(b, 0, b)) by {
            assert(b.subrange(0, b.len() as int) =~= b);
        }
        lemma_supplied_at(xs[k], b, 0);
    }
    lemma_concat_uniform(enc, 16);
    let got = Seq::new(xs.len(), |i: int| supplied_at(s, pos + 16 * i));
    assert forall|i: int| 0 <= i < xs.len() implies got[i] == xs[i] by {
        lemma_concat_nth(enc, 16, s, pos, i);
        lemma_supplied_at(xs[i], s, pos + i * 16);
    }
    assert(got =~= xs);
}

/// Where the counters of the kinds of cargo stand one after the other,
/// reading them at their places gives them back.
proof fn lemma_received_run(xs: Seq<Received>, s: Seq<u8>, pos: int)
    requires
        has_at(s, pos, concat(received_encs(xs))),
    ensures
        Seq::new(xs.len(), |i: int| received_at(s, pos + 8 * i)) == xs,
        concat(received_encs(xs)).len() == 8 * xs.len(),
{
    let enc = received_encs(xs);
    assert forall|k: int| 0 <= k < enc.len() implies (#[trigger] enc[k]).len() == 8 by {
        let b = enc[k];
        assert(has_at(b, 0, b)) by {
            assert(b.subrange(0, b.len() as int) =~= b);
        }
        lemma_received_at(xs[k], b, 0);
    }
    lemma_concat_uniform(enc, 8);
    let got = Seq::new(xs.len(), |i: int| received_at(s, pos + 8 * i));
    assert forall|i: int| 0 <= i < xs.len() implies got[i] == xs[i] by {
        lemma_concat_nth(enc, 8, s, pos, i);
        lemma_received_at(xs[i], s, pos + i * 8);
    }
    assert(got =~= xs);
}

/// The first fourteen bytes of a record are read back.
proof fn lemma_city_head(c: CityModel, s: Seq<u8>, pos: int)
    requires
        has_at(s, pos, city_head_bytes(c)),
    ensures
        city_head_bytes(c).len() == 14,
        uint_at(s, pos, 4) == c.xy,
        uint_at(s, pos + 4, 4) == c.townnamegrfid,
        uint_at(s, pos + 8, 2) == c.townnametype,
        uint_at(s, pos + 10, 4) == c.townnameparts,
{
    let a = int_bytes(c.xy as int, 4, false);
    let b = int_bytes(c.townnamegrfid as int, 4, false);
    let d = int_bytes(c.townnametype as int, 2, false);
    let e = int_bytes(c.townnameparts as int, 4, false);
    assert(city_head_bytes(c) == ((a + b) + d) + e);
    lemma_has_at_split(s, pos, (a + b) + d, e);
    lemma_has_at_split(s, pos, a + b, d);
    lemma_has_at_split(s, pos, a, b);
    lemma_uint_round_trip(s, pos, c.xy as int, 4);
    lemma_uint_round_trip(s, pos + 4, c.townnamegrfid as int, 4);
    lemma_uint_round_trip(s, pos + 8, c.townnametype as int, 2);
    lemma_uint_round_trip(s, pos + 10, c.townnameparts as int, 4);
}

/// What stands between the name and the text of a record is read back.
proof fn lemma_city_ratings(c: CityModel, multi: bool, s: Seq<u8>, pos: int)
    requires
        c.church_count.is_some() == multi,
        c.stadium_count.is_some() == multi,
        c.ratings.len() == 15,
        c.unwanted.len() == 15,
        c.goal.len() == 6,
        city_wf(c),
        has_at(s, pos, city_ratings_bytes(c, multi)),
    ensures
        city_ratings_bytes(c, multi).len() == 74 + multi_len(multi),
        s[pos] == c.flags,
        multi ==> c.church_count == Some(uint_at(s, pos + 1, 2) as u16)
            && c.stadium_count == Some(uint_at(s, pos + 3, 2) as u16),
        uint_at(s, pos + 1 + multi_len(multi), 2) == c.statues,
        uint_at(s, pos + 3 + multi_len(multi), 2) == c.have_ratings,
        ints_at(s, pos + 5 + multi_len(multi), 15, 2, false) == c.ratings,
        ints_at(s, pos + 35 + multi_len(multi), 15, 1, false) == c.unwanted,
        ints_at(s, pos + 50 + multi_len(multi), 6, 4, false) == c.goal,
{
    let m = multi_len(multi);
    let f = seq![c.flags];
    let mb = city_multi_bytes(c, multi);
    let st = int_bytes(c.statues as int, 2, false);
    let hr = int_bytes(c.have_ratings as int, 2, false);
    let ra = concat(ints_encs(c.ratings, 2, false));
    let un = concat(ints_encs(c.unwanted, 1, false));
    let go = concat(ints_encs(c.goal, 4, false));
    lemma_list_bytes_len(c.ratings, 2, false);
    lemma_list_bytes_len(c.unwanted, 1, false);
    lemma_list_bytes_len(c.goal, 4, false);
    assert(city_ratings_bytes(c, multi) == (((((f + mb) + st) + hr) + ra) + un) + go);
    lemma_has_at_split(s, pos, ((((f + mb) + st) + hr) + ra) + un, go);
    lemma_has_at_split(s, pos, (((f + mb) + st) + hr) + ra, un);
    lemma_has_at_split(s, pos, ((f + mb) + st) + hr, ra);
    lemma_has_at_split(s, pos, (f + mb) + st, hr);
    lemma_has_at_split(s, pos, f + mb, st);
    lemma_has_at_split(s, pos, f, mb);
    lemma_has_at_index(s, pos, f, 0);
    if multi {
        let ch = int_bytes(c.church_count.unwrap() as int, 2, false);
        let sd = int_bytes(c.stadium_count.unwrap() as int, 2, false);
        assert(mb == ch + sd);
        lemma_has_at_split(s, pos + 1, ch, sd);
        lemma_uint_round_trip(s, pos + 1, c.church_count.unwrap() as int, 2);
        lemma_uint_round_trip(s, pos + 3, c.stadium_count.unwrap() as int, 2);
    }
    lemma_uint_round_trip(s, pos + 1 + m, c.statues as int, 2);
    lemma_uint_round_trip(s, pos + 3 + m, c.have_ratings as int, 2);
    lemma_ints_at(c.ratings, 2, false, s, pos + 5 + m);
    lemma_ints_at(c.unwanted, 1, false, s, pos + 35 + m);
    lemma_ints_at(c.goal, 4, false, s, pos + 50 + m);
}

/// What stands between the text and the list of a record is read back.
proof fn lemma_city_growth(c: CityModel, s: Seq<u8>, pos: int)
    requires
        has_at(s, pos, city_growth_bytes(c)),
    ensures
        city_growth_bytes(c).len() == 12,
        uint_at(s, pos, 2) == c.time_until_rebuild,
        uint_at(s, pos + 2, 2) == c.grow_counter,
        uint_at(s, pos + 4, 2) == c.growth_rate,
        s[pos + 6] == c.fund_buildings_months,
        s[pos + 7] == c.road_build_months,
        s[pos + 8] == c.exclusivity,
        s[pos + 9] == c.exclusive_counter,
        int_at(s, pos + 10, 1, true) == c.larger_town,
        s[pos + 11] == c.layout,
{
    let a = int_bytes(c.time_until_rebuild as int, 2, false);
    let b = int_bytes(c.grow_counter as int, 2, false);
    let d = int_bytes(c.growth_rate as int, 2, false);
    let e = seq![
        c.fund_buildings_months,
        c.road_build_months,
        c.exclusivity,
        c.exclusive_counter,
    ];
    let f = int_bytes(c.larger_town as int, 1, true);
    let g = seq![c.layout];
    assert(city_growth_bytes(c) == ((((a + b) + d) + e) + f) + g);
    lemma_has_at_split(s, pos, (((a + b) + d) + e) + f, g);
    lemma_has_at_split(s, pos, ((a + b) + d) + e, f);
    lemma_has_at_split(s, pos, (a + b) + d, e);
    lemma_has_at_split(s, pos, a + b, d);
    lemma_has_at_split(s, pos, a, b);
    lemma_uint_round_trip(s, pos, c.time_until_rebuild as int, 2);
    lemma_uint_round_trip(s, pos + 2, c.grow_counter as int, 2);
    lemma_uint_round_trip(s, pos + 4, c.growth_rate as int, 2);
    lemma_has_at_index(s, pos + 6, e, 0);
    lemma_has_at_index(s, pos + 6, e, 1);
    lemma_has_at_index(s, pos + 6, e, 2);
    lemma_has_at_index(s, pos + 6, e, 3);
    lemma_int_round_trip(s, pos + 10, c.larger_town as int, 1, true);
    lemma_has_at_index(s, pos + 11, g, 0);
}

/// What stands behind the list of a record is read back.
proof fn lemma_city_cargo(c: CityModel, over: bool, s: Seq<u8>, pos: int)
    requires
        c.supplied.len() == 64,
        c.received.len() == 6,
        has_at(s, pos, city_cargo_bytes(c, over)),
    ensures
        city_cargo_bytes(c, over).len() == 1072 + override_len(over),
        over ==> s[pos] == c.override_flags && s[pos + 1] == c.override_values && s[pos + 2]
            == c.build_tunnels && s[pos + 3] == c.max_road_slope,
        Seq::new(64, |i: int| supplied_at(s, pos + override_len(over) + 16 * i)) == c.supplied,
        Seq::new(6, |i: int| received_at(s, pos + override_len(over) + 1024 + 8 * i))
            == c.received,
{
    let o = override_len(over);
    let ob = city_override_bytes(c, over);
    let su = concat(supplied_encs(c.supplied));
    let re = concat(received_encs(c.received));
    assert(city_cargo_bytes(c, over) == (ob + su) + re);
    lemma_has_at_split(s, pos, ob + su, re);
    lemma_has_at_split(s, pos, ob, su);
    if over {
        lemma_has_at_index(s, pos, ob, 0);
        lemma_has_at_index(s, pos, ob, 1);
        lemma_has_at_index(s, pos, ob, 2);
        lemma_has_at_index(s, pos, ob, 3);
    }
    lemma_supplied_run(c.supplied, s, pos + o);
    lemma_received_run(c.received, s, pos + o + 1024);
    assert(Seq::new(64, |i: int| supplied_at(s, pos + o + 16 * i)) =~= Seq::new(
        c.supplied.len(),
        |i: int| supplied_at(s, pos + o + 16 * i),
    ));
    assert(Seq::new(6, |i: int| received_at(s, pos + o + 1024 + 8 * i)) =~= Seq::new(
        c.received.len(),
        |i: int| received_at(s, pos + o + 1024 + 8 * i),
    ));
}

/// Wherever the wire form of a town record stands, reading a record there
/// with the same features gives the record back and stops right behind it,
/// provided the record can be written with these features.
#[verifier::rlimit(80)]
pub proof fn lemma_city_round_trip(c: CityModel, multi: bool, over: bool, s: Seq<u8>, pos: int)
    requires
        spec_check_city(c, multi, over) is Ok,
        city_wf(c),
        has_at(s, pos, city_bytes(c, multi, over)),
    ensures
        spec_parse_city(s, pos, multi, over) == Ok::<(CityModel, int), Error>(
            (c, pos + city_bytes(c, multi, over).len()),
        ),
{
    let a = city_head_bytes(c);
    let n = text_bytes(c.name);
    let r = city_ratings_bytes(c, multi);
    let t = text_bytes(c.text);
    let g = city_growth_bytes(c);
    let l = ids_bytes(c.psa_list);
    let k = city_cargo_bytes(c, over);
    assert(city_bytes(c, multi, over) == (((((a + n) + r) + t) + g) + l) + k);
    lemma_has_at_split(s, pos, ((((a + n) + r) + t) + g) + l, k);
    lemma_has_at_split(s, pos, (((a + n) + r) + t) + g, l);
    lemma_has_at_split(s, pos, ((a + n) + r) + t, g);
    lemma_has_at_split(s, pos, (a + n) + r, t);
    lemma_has_at_split(s, pos, a + n, r);
    lemma_has_at_split(s, pos, a, n);
    lemma_city_head(c, s, pos);
    lemma_text_round_trip(s, pos + 14, c.name);
    lemma_text_bytes_len(c.name);
    let at_flags = pos + 14 + text_len(c.name);
    lemma_city_ratings(c, multi, s, at_flags);
    let m = multi_len(multi);
    lemma_text_round_trip(s, at_flags + 74 + m, c.text);
    lemma_text_bytes_len(c.text);
    let at_growth = at_flags + 74 + m + text_len(c.text);
    lemma_city_growth(c, s, at_growth);
    lemma_ids_round_trip(c.psa_list, s, at_growth + 12);
    let at_cargo = at_growth + 12 + 4 + 4 * c.psa_list.len();
    lemma_city_cargo(c, over, s, at_cargo);
    let (got, end) = spec_parse_city(s, pos, multi, over).unwrap();
    assert(got.ratings == c.ratings);
    assert(got.supplied == c.supplied);
    assert(got.received == c.received);
    assert(got.larger_town == c.larger_town);
    assert(got.church_count == c.church_count);
    assert(got.stadium_count == c.stadium_count);
    assert(got == c);
}

/// A town record that was read can be written with the same features,
/// and every number of its lists is one of the type of its list.
pub proof fn lemma_parsed_city(s: Seq<u8>, pos: int, multi: bool, over: bool, c: CityModel, q: int)
    requires
        spec_parse_city(s, pos, multi, over) == Ok::<(CityModel, int), Error>((c, q)),
    ensures
        spec_check_city(c, multi, over) is Ok,
        city_wf(c),
        0 <= pos < q <= s.len(),
{
    let (name, at_flags) = crate::text::spec_parse_text(s, pos + 14).unwrap();
    crate::chtable::parsed::lemma_parsed_text(s, pos + 14, name, at_flags);
    let m = multi_len(multi);
    let (text, at_growth) = crate::text::spec_parse_text(s, at_flags + 74 + m).unwrap();
    crate::chtable::parsed::lemma_parsed_text(s, at_flags + 74 + m, text, at_growth);
    let n = crate::wire::uint_at(s, at_growth + 12, 4);
    crate::wire::lemma_uint_bytes_at(s, at_growth + 12, 4);
    let (psa, at_cargo) = spec_parse_ids(s, at_growth + 12).unwrap();
    crate::chtable::parsed::lemma_parsed_ints(s, at_growth + 16, 4, false, n as nat, psa, at_cargo);
    assert forall|i: int| 0 <= i < 15 implies crate::wire::int_fits(
        #[trigger] c.ratings[i],
        2,
        false,
    ) by {
        crate::chtable::parsed::lemma_int_at_fits(s, at_flags + 5 + m + i * 2, 2, false);
    }
    assert forall|i: int| 0 <= i < 15 implies crate::wire::int_fits(
        #[trigger] c.unwanted[i],
        1,
        false,
    ) by {
        crate::chtable::parsed::lemma_int_at_fits(s, at_flags + 35 + m + i * 1, 1, false);
    }
    assert forall|i: int| 0 <= i < 6 implies crate::wire::int_fits(#[trigger] c.goal[i], 4, false) by {
        crate::chtable::parsed::lemma_int_at_fits(s, at_flags + 50 + m + i * 4, 4, false);
    }
}

} // verus!
