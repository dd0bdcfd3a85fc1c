use crate::chtable::data::ints_of;
use crate::chtable::value::ints_encs;
use crate::error::{agrees, Error};
use crate::jgr::{ids_bytes, read_ids, SLXI, spec_has_feature, spec_parse_ids};
use crate::repeat::{concat, lemma_concat_take};
use crate::text::{spec_parse_text, TableString, text_bytes};
use crate::wire::{int_at, int_bytes, is_width, uint_at, WireInt};
use vstd::prelude::*;
use vstd::string::StringSliceAdditionalSpecFns;

verus! {

/// What a town supplied of one cargo: four 32-bit counters.
#[derive(Debug, Clone, Copy, PartialEq, Eq, Structural)]
pub struct Supplied {
    pub old_max: u32,
    pub new_max: u32,
    pub old_act: u32,
    pub new_act: u32,
}

/// What a town received of one kind of cargo: four 16-bit counters.
#[derive(Debug, Clone, Copy, PartialEq, Eq, Structural)]
pub struct Received {
    pub old_max: u16,
    pub new_max: u16,
    pub old_act: u16,
    pub new_act: u16,
}

/// The size of the map.
#[derive(Debug, Clone, Copy, PartialEq, Eq, Structural)]
pub struct Maps {
    pub dim_x: u32,
    pub dim_y: u32,
}

/// Number of companies a town keeps ratings for.
pub const MAX_COMPANIES: usize = 15;

/// Number of kinds of cargo a town keeps goals for.
pub const NUM_TE: usize = 6;

/// Number of cargoes.
pub const MAX_CARGO: usize = 64;

/// The `n` integers of `w` bytes that stand in `s` from `pos` on.
pub open spec fn ints_at(s: Seq<u8>, pos: int, n: int, w: int, signed: bool) -> Seq<int> {
    Seq::new(n as nat, |i: int| int_at(s, pos + i * w, w, signed))
}

/// The counters that stand in `s` at `pos`.
pub open spec fn supplied_at(s: Seq<u8>, pos: int) -> Supplied {
    Supplied {
        old_max: uint_at(s, pos, 4) as u32,
        new_max: uint_at(s, pos + 4, 4) as u32,
        old_act: uint_at(s, pos + 8, 4) as u32,
        new_act: uint_at(s, pos + 12, 4) as u32,
    }
}

/// The counters that stand in `s` at `pos`.
pub open spec fn received_at(s: Seq<u8>, pos: int) -> Received {
    Received {
        old_max: uint_at(s, pos, 2) as u16,
        new_max: uint_at(s, pos + 2, 2) as u16,
        old_act: uint_at(s, pos + 4, 2) as u16,
        new_act: uint_at(s, pos + 6, 2) as u16,
    }
}

/// The sixteen bytes of the counters.
pub open spec fn supplied_bytes(x: Supplied) -> Seq<u8> {
    int_bytes(x.old_max as int, 4, false) + int_bytes(x.new_max as int, 4, false) + int_bytes(
        x.old_act as int,
        4,
        false,
    ) + int_bytes(x.new_act as int, 4, false)
}

/// The eight bytes of the counters.
pub open spec fn received_bytes(x: Received) -> Seq<u8> {
    int_bytes(x.old_max as int, 2, false) + int_bytes(x.new_max as int, 2, false) + int_bytes(
        x.old_act as int,
        2,
        false,
    ) + int_bytes(x.new_act as int, 2, false)
}

/// The bytes of the counters of each cargo, each on its own.
pub open spec fn supplied_encs(xs: Seq<Supplied>) -> Seq<Seq<u8>> {
    Seq::new(xs.len(), |i: int| supplied_bytes(xs[i]))
}

/// The bytes of the counters of each kind of cargo, each on its own.
pub open spec fn received_encs(xs: Seq<Received>) -> Seq<Seq<u8>> {
    Seq::new(xs.len(), |i: int| received_bytes(xs[i]))
}

/// The size of the map as it stands in `s` at `pos`: two 32-bit numbers.
pub open spec fn spec_parse_maps(s: Seq<u8>, pos: int) -> Result<(Maps, int), Error> {
    if pos < 0 || pos + 8 > s.len() {
        Err(Error::Truncated)
    } else {
        Ok((Maps { dim_x: uint_at(s, pos, 4) as u32, dim_y: uint_at(s, pos + 4, 4) as u32 }, pos + 8))
    }
}

impl Supplied {
    /// The counters whose bytes stand in `data` at `pos`.
    pub fn read_at(data: &[u8], pos: usize) -> (x: Supplied)
        requires
            pos + 16 <= data.len(),
        ensures
            x == supplied_at(data@, pos as int),
    {
        Supplied {
            old_max: u32::read_at(data, pos),
            new_max: u32::read_at(data, pos + 4),
            old_act: u32::read_at(data, pos + 8),
            new_act: u32::read_at(data, pos + 12),
        }
    }

    /// Appends the sixteen bytes of the counters to `out`.
    pub fn write(&self, out: &mut Vec<u8>)
        ensures
            final(out)@ == old(out)@ + supplied_bytes(*self),
    {
        self.old_max.write_to(out);
        self.new_max.write_to(out);
        self.old_act.write_to(out);
        self.new_act.write_to(out);
        assert(out@ =~= old(out)@ + supplied_bytes(*self));
    }
}

impl Received {
    /// The counters whose bytes stand in `data` at `pos`.
    pub fn read_at(data: &[u8], pos: usize) -> (x: Received)
        requires
            pos + 8 <= data.len(),
        ensures
            x == received_at(data@, pos as int),
    {
        Received {
            old_max: u16::read_at(data, pos),
            new_max: u16::read_at(data, pos + 2),
            old_act: u16::read_at(data, pos + 4),
            new_act: u16::read_at(data, pos + 6),
        }
    }

    /// Appends the eight bytes of the counters to `out`.
    pub fn write(&self, out: &mut Vec<u8>)
        ensures
            final(out)@ == old(out)@ + received_bytes(*self),
    {
        self.old_max.write_to(out);
        self.new_max.write_to(out);
        self.old_act.write_to(out);
        self.new_act.write_to(out);
        assert(out@ =~= old(out)@ + received_bytes(*self));
    }
}

impl Maps {
    /// Reads the size of the map from `data` at `pos`.
    pub fn read(data: &[u8], pos: usize) -> (res: Result<(Maps, usize), Error>)
        ensures
            match spec_parse_maps(data@, pos as int) {
                Ok((m, q)) => res == Ok::<(Maps, usize), Error>((m, q as usize)) && q
                    <= data.len(),
                Err(e) => res == Err::<(Maps, usize), Error>(e),
            },
    {
        if pos > data.len() || data.len() - pos < 8 {
            return Err(Error::Truncated);
        }
        Ok((Maps { dim_x: u32::read_at(data, pos), dim_y: u32::read_at(data, pos + 4) }, pos + 8))
    }

    /// Appends the eight bytes of the size to `out`.
    pub fn write(&self, out: &mut Vec<u8>)
        ensures
            final(out)@ == old(out)@ + int_bytes(self.dim_x as int, 4, false) + int_bytes(
                self.dim_y as int,
                4,
                false,
            ),
    {
        self.dim_x.write_to(out);
        self.dim_y.write_to(out);
    }
}

/// Reads `n` integers that stand one after the other in `data` from `pos`
/// on.
pub fn read_run<T: WireInt>(data: &[u8], pos: usize, n: usize) -> (v: Vec<T>)
    requires
        pos + n * T::spec_width() <= data.len(),
    ensures
        ints_of(v@) == ints_at(data@, pos as int, n as int, T::spec_width(), T::spec_signed()),
        v@.len() == n,
{
    let w = T::width();
    let mut v: Vec<T> = Vec::new();
    let mut i: usize = 0;
    let mut p: usize = pos;
    while i < n
        invariant
            i <= n,
            w == T::spec_width(),
            is_width(w as int),
            p == pos + i * w,
            pos + n * w <= data.len(),
            v@.len() == i,
            forall|k: int|
                0 <= k < i ==> (#[trigger] v@[k]).as_int() == int_at(
                    data@,
                    pos + k * w,
                    w as int,
                    T::spec_signed(),
                ),
        decreases n - i,
    {
        assert(pos + i * w + w <= pos + n * w) by (nonlinear_arith)
            requires
                i < n,
                w >= 1,
        ;
        assert((i + 1) * w == i * w + w) by (nonlinear_arith);
        let x = T::read_at(data, p);
        v.push(x);
        p = p + w;
        i = i + 1;
    }
    assert(ints_of(v@) =~= ints_at(
        data@,
        pos as int,
        n as int,
        T::spec_width(),
        T::spec_signed(),
    ));
    v
}

/// Appends the bytes of the integers of `v`, one after the other, to `out`.
pub fn write_run<T: WireInt>(v: &Vec<T>, out: &mut Vec<u8>)
    ensures
        final(out)@ == old(out)@ + concat(
            ints_encs(ints_of(v@), T::spec_width(), T::spec_signed()),
        ),
{
    let ghost enc = ints_encs(ints_of(v@), T::spec_width(), T::spec_signed());
    let mut i: usize = 0;
    proof {
        lemma_concat_take(enc, 0);
    }
    while i < v.len()
        invariant
            i <= v.len(),
            enc == ints_encs(ints_of(v@), T::spec_width(), T::spec_signed()),
            out@ == old(out)@ + concat(enc.take(i as int)),
        decreases v.len() - i,
    {
        proof {
            lemma_concat_take(enc, i as int);
        }
        v[i].write_to(out);
        i = i + 1;
        assert(out@ =~= old(out)@ + concat(enc.take(i as int)));
    }
    proof {
        lemma_concat_take(enc, i as int);
    }
}

/// A town record.
pub struct CityModel {
    pub xy: u32,
    pub townnamegrfid: u32,
    pub townnametype: u16,
    pub townnameparts: u32,
    pub name: Seq<u8>,
    pub flags: u8,
    pub church_count: Option<u16>,
    pub stadium_count: Option<u16>,
    pub statues: u16,
    pub have_ratings: u16,
    pub ratings: Seq<int>,
    pub unwanted: Seq<int>,
    pub goal: Seq<int>,
    pub text: Seq<u8>,
    pub time_until_rebuild: u16,
    pub grow_counter: u16,
    pub growth_rate: u16,
    pub fund_buildings_months: u8,
    pub road_build_months: u8,
    pub exclusivity: u8,
    pub exclusive_counter: u8,
    pub larger_town: i8,
    pub layout: u8,
    pub psa_list: Seq<int>,
    pub override_flags: u8,
    pub override_values: u8,
    pub build_tunnels: u8,
    pub max_road_slope: u8,
    pub supplied: Seq<Supplied>,
    pub received: Seq<Received>,
}

/// A town record, as it stands in a row of the chunk tagged `CITY` of a
/// save whose chunks are not self-describing. Which fields a record has
/// depends on the features of the save.
#[derive(Debug, Clone, PartialEq, Eq)]
pub struct City {
    pub xy: u32,
    pub townnamegrfid: u32,
    pub townnametype: u16,
    pub townnameparts: u32,
    pub name: TableString,
    pub flags: u8,
    pub church_count: Option<u16>,
    pub stadium_count: Option<u16>,
    pub statues: u16,
    pub have_ratings: u16,
    pub ratings: Vec<u16>,
    pub unwanted: Vec<u8>,
    pub goal: Vec<u32>,
    pub text: TableString,
    pub time_until_rebuild: u16,
    pub grow_counter: u16,
    pub growth_rate: u16,
    pub fund_buildings_months: u8,
    pub road_build_months: u8,
    pub exclusivity: u8,
    pub exclusive_counter: u8,
    pub larger_town: i8,
    pub layout: u8,
    pub psa_list: Vec<u32>,
    pub override_flags: u8,
    pub override_values: u8,
    pub build_tunnels: u8,
    pub max_road_slope: u8,
    pub supplied: Vec<Supplied>,
    pub received: Vec<Received>,
}

impl View for City {
    type V = CityModel;

    open spec fn view(&self) -> CityModel {
        CityModel {
            xy: self.xy,
            townnamegrfid: self.townnamegrfid,
            townnametype: self.townnametype,
            townnameparts: self.townnameparts,
            name: self.name@,
            flags: self.flags,
            church_count: self.church_count,
            stadium_count: self.stadium_count,
            statues: self.statues,
            have_ratings: self.have_ratings,
            ratings: ints_of(self.ratings@),
            unwanted: ints_of(self.unwanted@),
            goal: ints_of(self.goal@),
            text: self.text@,
            time_until_rebuild: self.time_until_rebuild,
            grow_counter: self.grow_counter,
            growth_rate: self.growth_rate,
            fund_buildings_months: self.fund_buildings_months,
            road_build_months: self.road_build_months,
            exclusivity: self.exclusivity,
            exclusive_counter: self.exclusive_counter,
            larger_town: self.larger_town,
            layout: self.layout,
            psa_list: ints_of(self.psa_list@),
            override_flags: self.override_flags,
            override_values: self.override_values,
            build_tunnels: self.build_tunnels,
            max_road_slope: self.max_road_slope,
            supplied: self.supplied@,
            received: self.received@,
        }
    }
}

/// The name of the feature that adds the counts of churches and stadiums to
/// a town record.
pub open spec fn multi_building_name() -> Seq<u8> {
    "town_multi_building".spec_bytes()
}

/// The name of the feature that adds the four override bytes to a town
/// record.
pub open spec fn setting_override_name() -> Seq<u8> {
    "town_setting_override".spec_bytes()
}

/// Number of bytes that the counts of churches and stadiums take: 4 with
/// the feature, 0 without.
pub open spec fn multi_len(multi: bool) -> int {
    if multi {
        4
    } else {
        0
    }
}

/// Number of bytes that the override bytes take: 4 with the feature, 0
/// without.
pub open spec fn override_len(over: bool) -> int {
    if over {
        4
    } else {
        0
    }
}

/// Reading a town record from `s` at `pos`, with or without the fields of
/// the two features.
pub open spec fn spec_parse_city(s: Seq<u8>, pos: int, multi: bool, over: bool) -> Result<
    (CityModel, int),
    Error,
> {
    if pos < 0 || pos + 14 > s.len() {
        Err(Error::Truncated)
    } else {
        match spec_parse_text(s, pos + 14) {
            Err(e) => Err(e),
            Ok((name, at_flags)) => {
                let m = multi_len(multi);
                if at_flags + 74 + m > s.len() {
                    Err(Error::Truncated)
                } else {
                    match spec_parse_text(s, at_flags + 74 + m) {
                        Err(e) => Err(e),
                        Ok((text, at_growth)) => if at_growth + 12 > s.len() {
                            Err(Error::Truncated)
                        } else {
                            match spec_parse_ids(s, at_growth + 12) {
                                Err(e) => Err(e),
                                Ok((psa_list, at_cargo)) => {
                                    let o = override_len(over);
                                    if at_cargo + 1072 + o > s.len() {
                                        Err(Error::Truncated)
                                    } else {
                                        Ok(
                                            (
                                                CityModel {
                                                    xy: uint_at(s, pos, 4) as u32,
                                                    townnamegrfid: uint_at(s, pos + 4, 4) as u32,
                                                    townnametype: uint_at(s, pos + 8, 2) as u16,
                                                    townnameparts: uint_at(s, pos + 10, 4) as u32,
                                                    name,
                                                    flags: s[at_flags],
                                                    church_count: if multi {
                                                        Some(uint_at(s, at_flags + 1, 2) as u16)
                                                    } else {
                                                        None
                                                    },
                                                    stadium_count: if multi {
                                                        Some(uint_at(s, at_flags + 3, 2) as u16)
                                                    } else {
                                                        None
                                                    },
                                                    statues: uint_at(s, at_flags + 1 + m, 2) as u16,
                                                    have_ratings: uint_at(s, at_flags + 3 + m, 2) as u16,
                                                    ratings: ints_at(s, at_flags + 5 + m, 15, 2, false),
                                                    unwanted: ints_at(s, at_flags + 35 + m, 15, 1, false),
                                                    goal: ints_at(s, at_flags + 50 + m, 6, 4, false),
                                                    text,
                                                    time_until_rebuild: uint_at(s, at_growth, 2) as u16,
                                                    grow_counter: uint_at(s, at_growth + 2, 2) as u16,
                                                    growth_rate: uint_at(s, at_growth + 4, 2) as u16,
                                                    fund_buildings_months: s[at_growth + 6],
                                                    road_build_months: s[at_growth + 7],
                                                    exclusivity: s[at_growth + 8],
                                                    exclusive_counter: s[at_growth + 9],
                                                    larger_town: int_at(s, at_growth + 10, 1, true) as i8,
                                                    layout: s[at_growth + 11],
                                                    psa_list,
                                                    override_flags: if over {
                                                        s[at_cargo]
                                                    } else {
                                                        0
                                                    },
                                                    override_values: if over {
                                                        s[at_cargo + 1]
                                                    } else {
                                                        0
                                                    },
                                                    build_tunnels: if over {
                                                        s[at_cargo + 2]
                                                    } else {
                                                        0
                                                    },
                                                    max_road_slope: if over {
                                                        s[at_cargo + 3]
                                                    } else {
                                                        0
                                                    },
                                                    supplied: Seq::new(
                                                        64,
                                                        |i: int| supplied_at(s, at_cargo + o + 16 * i),
                                                    ),
                                                    received: Seq::new(
                                                        6,
                                                        |i: int|
                                                            received_at(s, at_cargo + o + 1024 + 8 * i),
                                                    ),
                                                },
                                                at_cargo + 1072 + o,
                                            ),
                                        )
                                    }
                                },
                            }
                        },
                    }
                }
            },
        }
    }
}

/// The first fourteen bytes of a town record.
pub open spec fn city_head_bytes(c: CityModel) -> Seq<u8> {
    int_bytes(c.xy as int, 4, false) + int_bytes(c.townnamegrfid as int, 4, false) + int_bytes(
        c.townnametype as int,
        2,
        false,
    ) + int_bytes(c.townnameparts as int, 4, false)
}

/// The counts of churches and stadiums, with the feature; nothing without.
pub open spec fn city_multi_bytes(c: CityModel, multi: bool) -> Seq<u8> {
    if multi {
        int_bytes(
            (match c.church_count {
                Some(n) => n,
                None => 0u16,
            }) as int,
            2,
            false,
        ) + int_bytes(
            (match c.stadium_count {
                Some(n) => n,
                None => 0u16,
            }) as int,
            2,
            false,
        )
    } else {
        Seq::empty()
    }
}

/// What stands between the name and the text of a town record.
pub open spec fn city_ratings_bytes(c: CityModel, multi: bool) -> Seq<u8> {
    seq![c.flags] + city_multi_bytes(c, multi) + int_bytes(c.statues as int, 2, false) + int_bytes(
        c.have_ratings as int,
        2,
        false,
    ) + concat(ints_encs(c.ratings, 2, false)) + concat(ints_encs(c.unwanted, 1, false)) + concat(
        ints_encs(c.goal, 4, false),
    )
}

/// What stands between the text and the list of a town record.
pub open spec fn city_growth_bytes(c: CityModel) -> Seq<u8> {
    int_bytes(c.time_until_rebuild as int, 2, false) + int_bytes(c.grow_counter as int, 2, false)
        + int_bytes(c.growth_rate as int, 2, false) + seq![
        c.fund_buildings_months,
        c.road_build_months,
        c.exclusivity,
        c.exclusive_counter,
    ] + int_bytes(c.larger_town as int, 1, true) + seq![c.layout]
}

/// The four override bytes, with the feature; nothing without.
pub open spec fn city_override_bytes(c: CityModel, over: bool) -> Seq<u8> {
    if over {
        seq![c.override_flags, c.override_values, c.build_tunnels, c.max_road_slope]
    } else {
        Seq::empty()
    }
}

/// What stands behind the list of a town record.
pub open spec fn city_cargo_bytes(c: CityModel, over: bool) -> Seq<u8> {
    city_override_bytes(c, over) + concat(supplied_encs(c.supplied)) + concat(
        received_encs(c.received),
    )
}

/// The wire form of a town record, with or without the fields of the two
/// features.
pub open spec fn city_bytes(c: CityModel, multi: bool, over: bool) -> Seq<u8> {
    city_head_bytes(c) + text_bytes(c.name) + city_ratings_bytes(c, multi) + text_bytes(c.text)
        + city_growth_bytes(c) + ids_bytes(c.psa_list) + city_cargo_bytes(c, over)
}

/// The record has the fields of the features that are present and none of
/// those that are absent, and each of its lists has the length that the
/// game fixes.
pub open spec fn city_fits(c: CityModel, multi: bool, over: bool) -> bool {
    &&& c.church_count.is_some() == multi
    &&& c.stadium_count.is_some() == multi
    &&& (!over ==> c.override_flags == 0 && c.override_values == 0 && c.build_tunnels == 0
        && c.max_road_slope == 0)
    &&& c.ratings.len() == 15
    &&& c.unwanted.len() == 15
    &&& c.goal.len() == 6
    &&& c.supplied.len() == 64
    &&& c.received.len() == 6
}

/// Whether a town record can be written, and if not, why: `SizeMismatch`
/// where it does not fit the features, else `IntegerOverflow` where the
/// length of its name, its text or its list does not fit 32 bits.
pub open spec fn spec_check_city(c: CityModel, multi: bool, over: bool) -> Result<(), Error> {
    if !city_fits(c, multi, over) {
        Err(Error::SizeMismatch)
    } else if c.name.len() > u32::MAX || c.text.len() > u32::MAX || c.psa_list.len() > u32::MAX {
        Err(Error::IntegerOverflow)
    } else {
        Ok(())
    }
}

/// Feature gating: with the feature `town_multi_building` the wire form of
/// a town record is exactly four bytes longer than without it, whatever the
/// record holds: two 16-bit counts.
pub proof fn lemma_multi_building_adds_four(c: CityModel, over: bool)
    ensures
        city_bytes(c, true, over).len() == city_bytes(c, false, over).len() + 4,
{
}

/// With the feature `town_setting_override` the wire form of a town record
/// is exactly four bytes longer than without it.
pub proof fn lemma_setting_override_adds_four(c: CityModel, multi: bool)
    ensures
        city_bytes(c, multi, true).len() == city_bytes(c, multi, false).len() + 4,
{
}

/// Reads the counters of `n` cargoes that stand one after the other in
/// `data` from `pos` on.
fn read_supplied_run(data: &[u8], pos: usize, n: usize) -> (v: Vec<Supplied>)
    requires
        pos + 16 * n <= data.len(),
    ensures
        v@ == Seq::new(n as nat, |i: int| supplied_at(data@, pos + 16 * i)),
{
    let mut v: Vec<Supplied> = Vec::new();
    let mut i: usize = 0;
    while i < n
        invariant
            i <= n,
            pos + 16 * n <= data.len(),
            v@.len() == i,
            forall|k: int| 0 <= k < i ==> #[trigger] v@[k] == supplied_at(data@, pos + 16 * k),
        decreases n - i,
    {
        v.push(Supplied::read_at(data, pos + 16 * i));
        i = i + 1;
    }
    assert(v@ =~= Seq::new(n as nat, |i: int| supplied_at(data@, pos + 16 * i)));
    v
}

/// Reads the counters of `n` kinds of cargo that stand one after the other
/// in `data` from `pos` on.
fn read_received_run(data: &[u8], pos: usize, n: usize) -> (v: Vec<Received>)
    requires
        pos + 8 * n <= data.len(),
    ensures
        v@ == Seq::new(n as nat, |i: int| received_at(data@, pos + 8 * i)),
{
    let mut v: Vec<Received> = Vec::new();
    let mut i: usize = 0;
    while i < n
        invariant
            i <= n,
            pos + 8 * n <= data.len(),
            v@.len() == i,
            forall|k: int| 0 <= k < i ==> #[trigger] v@[k] == received_at(data@, pos + 8 * k),
        decreases n - i,
    {
        v.push(Received::read_at(data, pos + 8 * i));
        i = i + 1;
    }
    assert(v@ =~= Seq::new(n as nat, |i: int| received_at(data@, pos + 8 * i)));
    v
}

/// Appends the counters of the cargoes to `out`.
fn write_supplied_run(v: &Vec<Supplied>, out: &mut Vec<u8>)
    ensures
        final(out)@ == old(out)@ + concat(supplied_encs(v@)),
{
    let ghost enc = supplied_encs(v@);
    let mut i: usize = 0;
    proof {
        lemma_concat_take(enc, 0);
    }
    while i < v.len()
        invariant
            i <= v.len(),
            enc == supplied_encs(v@),
            out@ == old(out)@ + concat(enc.take(i as int)),
        decreases v.len() - i,
    {
        proof {
            lemma_concat_take(enc, i as int);
        }
        v[i].write(out);
        i = i + 1;
        assert(out@ =~= old(out)@ + concat(enc.take(i as int)));
    }
    proof {
        lemma_concat_take(enc, i as int);
    }
}

/// Appends the counters of the kinds of cargo to `out`.
fn write_received_run(v: &Vec<Received>, out: &mut Vec<u8>)
    ensures
        final(out)@ == old(out)@ + concat(received_encs(v@)),
{
    let ghost enc = received_encs(v@);
    let mut i: usize = 0;
    proof {
        lemma_concat_take(enc, 0);
    }
    while i < v.len()
        invariant
            i <= v.len(),
            enc == received_encs(v@),
            out@ == old(out)@ + concat(enc.take(i as int)),
        decreases v.len() - i,
    {
        proof {
            lemma_concat_take(enc, i as int);
        }
        v[i].write(out);
        i = i + 1;
        assert(out@ =~= old(out)@ + concat(enc.take(i as int)));
    }
    proof {
        lemma_concat_take(enc, i as int);
    }
}

impl City {
    /// Reads a town record from `data` at `pos`, with the fields of the
    /// features that the save uses.
    pub fn read(data: &[u8], pos: usize, slxi: &SLXI) -> (res: Result<(City, usize), Error>)
        ensures
            agrees(
                res,
                spec_parse_city(
                    data@,
                    pos as int,
                    spec_has_feature(slxi@, multi_building_name()),
                    spec_has_feature(slxi@, setting_override_name()),
                ),
            ),
            res matches Ok((c, p)) ==> pos < p <= data.len() && spec_check_city(
                c@,
                spec_has_feature(slxi@, multi_building_name()),
                spec_has_feature(slxi@, setting_override_name()),
            ) is Ok,
    {
        let multi = slxi.has_feature("town_multi_building");
        let over = slxi.has_feature("town_setting_override");
        City::read_with(data, pos, multi, over)
    }

    /// Reads a town record from `data` at `pos`, with or without the fields
    /// of the two features.
    pub fn read_with(data: &[u8], pos: usize, multi: bool, over: bool) -> (res: Result<
        (City, usize),
        Error,
    >)
        ensures
            agrees(res, spec_parse_city(data@, pos as int, multi, over)),
            res matches Ok((c, p)) ==> pos < p <= data.len() && spec_check_city(c@, multi, over)
                is Ok,
    {
        if pos > data.len() || data.len() - pos < 14 {
            return Err(Error::Truncated);
        }
        let xy = u32::read_at(data, pos);
        let townnamegrfid = u32::read_at(data, pos + 4);
        let townnametype = u16::read_at(data, pos + 8);
        let townnameparts = u32::read_at(data, pos + 10);
        let (name, at_flags) = match TableString::read(data, pos + 14) {
            Ok(r) => r,
            Err(e) => {
                return Err(e);
            },
        };
        let m: usize = if multi {
            4
        } else {
            0
        };
        if data.len() - at_flags < 74 + m {
            return Err(Error::Truncated);
        }
        let flags = data[at_flags];
        let church_count = if multi {
            Some(u16::read_at(data, at_flags + 1))
        } else {
            None
        };
        let stadium_count = if multi {
            Some(u16::read_at(data, at_flags + 3))
        } else {
            None
        };
        let statues = u16::read_at(data, at_flags + 1 + m);
        let have_ratings = u16::read_at(data, at_flags + 3 + m);
        let ratings = read_run::<u16>(data, at_flags + 5 + m, 15);
        let unwanted = read_run::<u8>(data, at_flags + 35 + m, 15);
        let goal = read_run::<u32>(data, at_flags + 50 + m, 6);
        let (text, at_growth) = match TableString::read(data, at_flags + 74 + m) {
            Ok(r) => r,
            Err(e) => {
                return Err(e);
            },
        };
        if data.len() - at_growth < 12 {
            return Err(Error::Truncated);
        }
        let time_until_rebuild = u16::read_at(data, at_growth);
        let grow_counter = u16::read_at(data, at_growth + 2);
        let growth_rate = u16::read_at(data, at_growth + 4);
        let fund_buildings_months = data[at_growth + 6];
        let road_build_months = data[at_growth + 7];
        let exclusivity = data[at_growth + 8];
        let exclusive_counter = data[at_growth + 9];
        let larger_town = i8::read_at(data, at_growth + 10);
        let layout = data[at_growth + 11];
        let (psa_list, at_cargo) = match read_ids(data, at_growth + 12) {
            Ok(r) => r,
            Err(e) => {
                return Err(e);
            },
        };
        let o: usize = if over {
            4
        } else {
            0
        };
        if data.len() - at_cargo < 1072 + o {
            return Err(Error::Truncated);
        }
        let override_flags = if over {
            data[at_cargo]
        } else {
            0
        };
        let override_values = if over {
            data[at_cargo + 1]
        } else {
            0
        };
        let build_tunnels = if over {
            data[at_cargo + 2]
        } else {
            0
        };
        let max_road_slope = if over {
            data[at_cargo + 3]
        } else {
            0
        };
        let supplied = read_supplied_run(data, at_cargo + o, 64);
        let received = read_received_run(data, at_cargo + o + 1024, 6);
        let city = City {
            xy,
            townnamegrfid,
            townnametype,
            townnameparts,
            name,
            flags,
            church_count,
            stadium_count,
            statues,
            have_ratings,
            ratings,
            unwanted,
            goal,
            text,
            time_until_rebuild,
            grow_counter,
            growth_rate,
            fund_buildings_months,
            road_build_months,
            exclusivity,
            exclusive_counter,
            larger_town,
            layout,
            psa_list,
            override_flags,
            override_values,
            build_tunnels,
            max_road_slope,
            supplied,
            received,
        };
        proof {
            crate::town_laws::lemma_parsed_city(
                data@,
                pos as int,
                multi,
                over,
                city@,
                at_cargo + 1072 + o,
            );
        }
        Ok((city, at_cargo + 1072 + o))
    }

    /// Whether the record can be written with or without the fields of the
    /// two features, and if not, why.
    pub fn check(&self, multi: bool, over: bool) -> (res: Result<(), Error>)
        ensures
            res == spec_check_city(self@, multi, over),
    {
        if self.church_count.is_some() != multi || self.stadium_count.is_some() != multi {
            return Err(Error::SizeMismatch);
        }
        if !over && (self.override_flags != 0 || self.override_values != 0 || self.build_tunnels
            != 0 || self.max_road_slope != 0) {
            return Err(Error::SizeMismatch);
        }
        if self.ratings.len() != 15 || self.unwanted.len() != 15 || self.goal.len() != 6
            || self.supplied.len() != 64 || self.received.len() != 6 {
            return Err(Error::SizeMismatch);
        }
        if self.name.len() > 0xFFFF_FFFF || self.text.len() > 0xFFFF_FFFF || self.psa_list.len()
            > 0xFFFF_FFFF {
            return Err(Error::IntegerOverflow);
        }
        Ok(())
    }

    /// Appends the wire form of the record to `out`, with the fields of the
    /// features that the save uses.
    pub fn write(&self, slxi: &SLXI, out: &mut Vec<u8>)
        requires
            spec_check_city(
                self@,
                spec_has_feature(slxi@, multi_building_name()),
                spec_has_feature(slxi@, setting_override_name()),
            ) is Ok,
        ensures
            final(out)@ == old(out)@ + city_bytes(
                self@,
                spec_has_feature(slxi@, multi_building_name()),
                spec_has_feature(slxi@, setting_override_name()),
            ),
    {
        let multi = slxi.has_feature("town_multi_building");
        let over = slxi.has_feature("town_setting_override");
        self.write_with(multi, over, out)
    }

    /// Appends the first fourteen bytes of the record to `out`.
    fn write_head(&self, out: &mut Vec<u8>)
        ensures
            final(out)@ == old(out)@ + city_head_bytes(self@),
    {
        self.xy.write_to(out);
        self.townnamegrfid.write_to(out);
        self.townnametype.write_to(out);
        self.townnameparts.write_to(out);
        assert(out@ =~= old(out)@ + city_head_bytes(self@));
    }

    /// Appends the counts of churches and stadiums to `out`, with the
    /// feature.
    fn write_multi(&self, multi: bool, out: &mut Vec<u8>)
        requires
            self.church_count.is_some() == multi,
            self.stadium_count.is_some() == multi,
        ensures
            final(out)@ == old(out)@ + city_multi_bytes(self@, multi),
    {
        match (self.church_count, self.stadium_count) {
            (Some(x), Some(y)) => {
                x.write_to(out);
                y.write_to(out);
                assert(out@ =~= old(out)@ + city_multi_bytes(self@, multi));
            },
            _ => {
                assert(out@ =~= old(out)@ + city_multi_bytes(self@, multi));
            },
        }
    }

    /// Appends what stands between the name and the text to `out`.
    fn write_ratings(&self, multi: bool, out: &mut Vec<u8>)
        requires
            self.church_count.is_some() == multi,
            self.stadium_count.is_some() == multi,
        ensures
            final(out)@ == old(out)@ + city_ratings_bytes(self@, multi),
    {
        out.push(self.flags);
        self.write_multi(multi, out);
        self.statues.write_to(out);
        self.have_ratings.write_to(out);
        write_run(&self.ratings, out);
        write_run(&self.unwanted, out);
        write_run(&self.goal, out);
        assert(out@ =~= old(out)@ + city_ratings_bytes(self@, multi));
    }

    /// Appends what stands between the text and the list to `out`.
    fn write_growth(&self, out: &mut Vec<u8>)
        ensures
            final(out)@ == old(out)@ + city_growth_bytes(self@),
    {
        self.time_until_rebuild.write_to(out);
        self.grow_counter.write_to(out);
        self.growth_rate.write_to(out);
        out.push(self.fund_buildings_months);
        out.push(self.road_build_months);
        out.push(self.exclusivity);
        out.push(self.exclusive_counter);
        self.larger_town.write_to(out);
        out.push(self.layout);
        assert(out@ =~= old(out)@ + city_growth_bytes(self@));
    }

    /// Appends what stands behind the list to `out`.
    fn write_cargo(&self, over: bool, out: &mut Vec<u8>)
        ensures
            final(out)@ == old(out)@ + city_cargo_bytes(self@, over),
    {
        if over {
            out.push(self.override_flags);
            out.push(self.override_values);
            out.push(self.build_tunnels);
            out.push(self.max_road_slope);
        }
        assert(out@ =~= old(out)@ + city_override_bytes(self@, over));
        write_supplied_run(&self.supplied, out);
        write_received_run(&self.received, out);
        assert(out@ =~= old(out)@ + city_cargo_bytes(self@, over));
    }

    /// Appends the wire form of the record to `out`, with or without the
    /// fields of the two features.
    pub fn write_with(&self, multi: bool, over: bool, out: &mut Vec<u8>)
        requires
            spec_check_city(self@, multi, over) is Ok,
        ensures
            final(out)@ == old(out)@ + city_bytes(self@, multi, over),
    {
        self.write_head(out);
        self.name.write(out);
        self.write_ratings(multi, out);
        self.text.write(out);
        self.write_growth(out);
        let ghost d = out@;
        (self.psa_list.len() as u32).write_to(out);
        write_run(&self.psa_list, out);
        assert(out@ =~= d + ids_bytes(self@.psa_list));
        self.write_cargo(over, out);
        assert(out@ =~= old(out)@ + city_bytes(self@, multi, over));
    }
}

} // verus!
