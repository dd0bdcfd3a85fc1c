use ottd_map_parser::charray::{City, Maps, Received, Supplied};
use ottd_map_parser::chtable::TableString;
use ottd_map_parser::error::Error;
use ottd_map_parser::jgr::{ExtendedChunk, SlxiSubChunkFlags, SLXI};
use ottd_map_parser::save::{Chunk, ChunkValue, CompressionType, Save};

fn feature(name: &str) -> ExtendedChunk {
    ExtendedChunk {
        flags: SlxiSubChunkFlags { raw: 0 },
        version: 1,
        name: TableString::from_text(name),
        extra_data: None,
        chunk_list: None,
    }
}

fn slxi(names: &[&str]) -> SLXI {
    SLXI { chunk_version: 0, flags: 0, chunks: names.iter().map(|n| feature(n)).collect() }
}

fn town(multi: bool, over: bool) -> City {
    City {
        xy: 0x0001_0203,
        townnamegrfid: 4,
        townnametype: 5,
        townnameparts: 6,
        name: TableString::from_text("Fort Wrunbury"),
        flags: 7,
        church_count: if multi { Some(2) } else { None },
        stadium_count: if multi { Some(1) } else { None },
        statues: 8,
        have_ratings: 9,
        ratings: (0..15).collect(),
        unwanted: (100..115).collect(),
        goal: vec![1, 2, 3, 4, 5, 0xFFFF_FFFF],
        text: TableString::from_text(""),
        time_until_rebuild: 10,
        grow_counter: 11,
        growth_rate: 12,
        fund_buildings_months: 13,
        road_build_months: 14,
        exclusivity: 15,
        exclusive_counter: 16,
        larger_town: -1,
        layout: 3,
        psa_list: vec![0xAABB_CCDD, 1],
        override_flags: if over { 1 } else { 0 },
        override_values: if over { 2 } else { 0 },
        build_tunnels: if over { 3 } else { 0 },
        max_road_slope: if over { 4 } else { 0 },
        supplied: (0..64)
            .map(|i| Supplied { old_max: i, new_max: i + 1, old_act: i + 2, new_act: i + 3 })
            .collect(),
        received: (0..6)
            .map(|i| Received { old_max: i, new_max: i + 1, old_act: i + 2, new_act: i + 3 })
            .collect(),
    }
}

#[test]
fn feature_query() {
    let x = slxi(&["town_multi_building", "other"]);
    assert!(x.has_feature("town_multi_building"));
    assert!(x.has_feature("other"));
    assert!(!x.has_feature("town_setting_override"));
    assert!(!x.has_feature(""));
    assert!(!SLXI::empty().has_feature("town_multi_building"));
}

#[test]
fn flag_bits() {
    let f = SlxiSubChunkFlags { raw: 0b1010 };
    assert!(!f.ignorable_unknown());
    assert!(f.ignorable_version());
    assert!(!f.extra_data_present());
    assert!(f.chunk_id_list_present());
    let g = SlxiSubChunkFlags { raw: 0xFFFF_FFF5 };
    assert!(g.ignorable_unknown());
    assert!(!g.ignorable_version());
    assert!(g.extra_data_present());
    assert!(!g.chunk_id_list_present());
}

#[test]
fn slxi_on_the_wire() {
    let x = SLXI {
        chunk_version: 1,
        flags: 2,
        chunks: vec![
            feature("ab"),
            ExtendedChunk {
                flags: SlxiSubChunkFlags { raw: 0xABCD_EF0C },
                version: 0x0102,
                name: TableString::from_text("c"),
                extra_data: Some(vec![9, 9]),
                chunk_list: Some(vec![0x4142_4344]),
            },
        ],
    };
    assert_eq!(x.check(), Ok(()));
    let mut out = vec![];
    x.write(&mut out);
    let mut expected = vec![0, 0, 0, 1, 0, 0, 0, 2, 0, 0, 0, 2];
    expected.extend_from_slice(&[0, 0, 0, 0, 0, 1, 2, b'a', b'b']);
    expected.extend_from_slice(&[0xAB, 0xCD, 0xEF, 0x0C, 1, 2, 1, b'c']);
    expected.extend_from_slice(&[0, 0, 0, 2, 9, 9]);
    expected.extend_from_slice(&[0, 0, 0, 1, 0x41, 0x42, 0x43, 0x44]);
    assert_eq!(out, expected);
    assert_eq!(SLXI::read(&out, 0), Ok((x, out.len())));
    assert_eq!(SLXI::read(&out[..out.len() - 1], 0).map(|r| r.1), Err(Error::Truncated));
    assert_eq!(SLXI::read(&out[..11], 0).map(|r| r.1), Err(Error::Truncated));
}

#[test]
fn entry_whose_flags_and_fields_disagree() {
    let mut e = feature("x");
    e.extra_data = Some(vec![]);
    assert_eq!(e.check(), Err(Error::SizeMismatch));
    let mut e = feature("x");
    e.flags = SlxiSubChunkFlags { raw: 8 };
    assert_eq!(e.check(), Err(Error::SizeMismatch));
    e.chunk_list = Some(vec![]);
    assert_eq!(e.check(), Ok(()));
}

#[test]
fn slxi_of_a_save() {
    let x = slxi(&["town_multi_building"]);
    let mut data = vec![];
    x.write(&mut data);
    let with = Save {
        compression_type: CompressionType::OTTN,
        version: 1,
        ignore: 0,
        chunks: vec![
            Chunk { tag: *b"MAPS", value: ChunkValue::ChRiff { data: vec![0, 0, 1, 0, 0, 0, 2, 0] } },
            Chunk { tag: *b"SLXI", value: ChunkValue::ChRiff { data } },
        ],
    };
    assert_eq!(with.slxi(), Ok(x));
    let without = Save { compression_type: CompressionType::OTTN, version: 1, ignore: 0, chunks: vec![] };
    assert_eq!(without.slxi(), Ok(SLXI::empty()));
    let wrong = Save {
        compression_type: CompressionType::OTTN,
        version: 1,
        ignore: 0,
        chunks: vec![Chunk { tag: *b"SLXI", value: ChunkValue::ChArray { elements: vec![] } }],
    };
    assert_eq!(wrong.slxi(), Err(Error::InvalidChunk));
}

#[test]
fn map_size() {
    assert_eq!(
        Maps::read(&[0, 0, 1, 0, 0, 0, 2, 0], 0),
        Ok((Maps { dim_x: 256, dim_y: 512 }, 8))
    );
    assert_eq!(Maps::read(&[0, 0, 1, 0, 0, 0, 2], 0), Err(Error::Truncated));
    let mut out = vec![];
    Maps { dim_x: 256, dim_y: 512 }.write(&mut out);
    assert_eq!(out, vec![0, 0, 1, 0, 0, 0, 2, 0]);
}

#[test]
fn town_round_trip() {
    for multi in [false, true] {
        for over in [false, true] {
            let city = town(multi, over);
            assert_eq!(city.check(multi, over), Ok(()));
            let mut out = vec![];
            city.write_with(multi, over, &mut out);
            let (back, end) = City::read_with(&out, 0, multi, over).unwrap();
            assert_eq!(end, out.len());
            assert_eq!(back, city);
            assert_eq!(
                City::read_with(&out[..out.len() - 1], 0, multi, over).map(|r| r.1),
                Err(Error::Truncated)
            );
        }
    }
}

#[test]
fn town_wire_length() {
    let mut plain = vec![];
    town(false, false).write_with(false, false, &mut plain);
    assert_eq!(plain.len(), 14 + 14 + 74 + 1 + 12 + 12 + 1072);
    assert_eq!(&plain[..4], &[0x00, 0x01, 0x02, 0x03]);
    assert_eq!(plain[14], 13);
    assert_eq!(&plain[15..28], b"Fort Wrunbury");
}

#[test]
fn multi_building_adds_four_bytes() {
    for over in [false, true] {
        let mut with = vec![];
        town(true, over).write_with(true, over, &mut with);
        let mut without = vec![];
        town(false, over).write_with(false, over, &mut without);
        assert_eq!(with.len(), without.len() + 4);
        assert_eq!(&with[29..33], &[0, 2, 0, 1]);
        assert_eq!(&with[33..], &without[29..]);
    }
}

#[test]
fn town_read_with_the_features_of_the_save() {
    let features = slxi(&["town_multi_building", "town_setting_override"]);
    let city = town(true, true);
    let mut out = vec![];
    city.write(&features, &mut out);
    assert_eq!(City::read(&out, 0, &features), Ok((city, out.len())));
    let only_multi = slxi(&["town_multi_building"]);
    let mut shorter = vec![];
    town(true, false).write(&only_multi, &mut shorter);
    assert_eq!(shorter.len() + 4, out.len());
    let (other, end) = City::read(&shorter, 0, &only_multi).unwrap();
    assert_eq!(end, shorter.len());
    assert_eq!(other.church_count, Some(2));
    assert_eq!(other.override_flags, 0);
}

#[test]
fn town_that_does_not_fit_the_features() {
    assert_eq!(town(true, false).check(false, false), Err(Error::SizeMismatch));
    assert_eq!(town(false, false).check(true, false), Err(Error::SizeMismatch));
    assert_eq!(town(false, true).check(false, false), Err(Error::SizeMismatch));
    let mut short = town(false, false);
    short.ratings.pop();
    assert_eq!(short.check(false, false), Err(Error::SizeMismatch));
    let mut long = town(false, false);
    long.supplied.push(Supplied { old_max: 0, new_max: 0, old_act: 0, new_act: 0 });
    assert_eq!(long.check(false, false), Err(Error::SizeMismatch));
}

#[test]
fn renaming_a_town() {
    let mut city = town(false, false);
    let mut before = vec![];
    city.write_with(false, false, &mut before);
    city.name = TableString::from_text("New Name");
    let mut after = vec![];
    city.write_with(false, false, &mut after);
    assert_eq!(after.len() + 5, before.len());
    let (back, _) = City::read_with(&after, 0, false, false).unwrap();
    assert_eq!(back.name.to_string_lossy(), "New Name");
    assert_eq!(back.xy, 0x0001_0203);
}
