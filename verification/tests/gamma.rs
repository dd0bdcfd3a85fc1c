use ottd_map_parser::error::Error;
use ottd_map_parser::gamma::{gamma_length, parse_gamma, write_gamma, Gamma};

#[test]
fn parse_gamma_test() {
    let gamma = parse_gamma(b"\x09", 0).unwrap();
    assert_eq!(gamma.0, 9);

    let bytes = 0b10000001_00001000u16.to_be_bytes();
    let gamma = parse_gamma(&bytes, 0).unwrap();
    assert_eq!(gamma.0, 264);

    let bytes = 0b11111000_00001000_00000000_00000000_00000000_00000000_00000000_00000000u64
        .to_be_bytes();
    let gamma = parse_gamma(&bytes, 0).unwrap();
    assert_eq!(gamma.0, 134217728);
}

#[test]
fn write_gamma_test() {
    {
        let mut data = vec![];
        write_gamma(3, &mut data);
        assert_eq!(data, &[3]);
    }

    {
        let mut data = vec![];
        write_gamma(179192378, &mut data);

        let gamma = parse_gamma(&data, 0).unwrap();

        assert_eq!(gamma.0, 179192378);
    }
}

#[test]
fn gamma_length_test() {
    assert_eq!(gamma_length(150u32), 2);
}

#[test]
fn gamma_264_both_ways() {
    assert_eq!(parse_gamma(&[0x81, 0x08], 0), Ok((264, 2)));
    let mut out = vec![];
    write_gamma(264, &mut out);
    assert_eq!(out, vec![0x81, 0x08]);
}

#[test]
fn gamma_five_bytes() {
    assert_eq!(parse_gamma(&[0xF0, 0x08, 0x00, 0x00, 0x00], 0), Ok((134_217_728, 5)));
    let mut out = vec![];
    write_gamma(134_217_728, &mut out);
    assert_eq!(out, vec![0xE8, 0x00, 0x00, 0x00]);
    let mut out = vec![];
    write_gamma(0x1000_0000, &mut out);
    assert_eq!(out, vec![0xF0, 0x10, 0x00, 0x00, 0x00]);
    assert_eq!(parse_gamma(&[0xFF, 0x10, 0x00, 0x00, 0x00], 0), Ok((0x1000_0000, 5)));
}

#[test]
fn gamma_round_trip_at_the_edges() {
    let values: [u32; 12] = [
        0,
        1,
        0x7F,
        0x80,
        0x3FFF,
        0x4000,
        0x1F_FFFF,
        0x20_0000,
        0x0FFF_FFFF,
        0x1000_0000,
        0xDEAD_BEEF,
        u32::MAX,
    ];
    for v in values {
        let mut out = vec![0xAA];
        write_gamma(v, &mut out);
        out.push(0x55);
        assert_eq!(out.len() as u32, 2 + gamma_length(v));
        assert_eq!(parse_gamma(&out, 1), Ok((v, out.len() - 1)));
    }
}

#[test]
fn gamma_lengths() {
    assert_eq!(gamma_length(0), 1);
    assert_eq!(gamma_length(0x7F), 1);
    assert_eq!(gamma_length(0x80), 2);
    assert_eq!(gamma_length(0x3FFF), 2);
    assert_eq!(gamma_length(0x4000), 3);
    assert_eq!(gamma_length(0x1F_FFFF), 3);
    assert_eq!(gamma_length(0x20_0000), 4);
    assert_eq!(gamma_length(0x0FFF_FFFF), 4);
    assert_eq!(gamma_length(0x1000_0000), 5);
    assert_eq!(gamma_length(u32::MAX), 5);
}

#[test]
fn gamma_cut_short() {
    assert_eq!(parse_gamma(&[], 0), Err(Error::Truncated));
    assert_eq!(parse_gamma(&[0x81], 0), Err(Error::Truncated));
    assert_eq!(parse_gamma(&[0xC1, 0x00], 0), Err(Error::Truncated));
    assert_eq!(parse_gamma(&[0xE1, 0x00, 0x00], 0), Err(Error::Truncated));
    assert_eq!(parse_gamma(&[0xF0, 0x00, 0x00, 0x00], 0), Err(Error::Truncated));
    assert_eq!(parse_gamma(&[0x01], 1), Err(Error::Truncated));
    assert_eq!(parse_gamma(&[0x01], 7), Err(Error::Truncated));
}

#[test]
fn gamma_over_long_form_is_read() {
    assert_eq!(parse_gamma(&[0x80, 0x05], 0), Ok((5, 2)));
    let mut out = vec![];
    write_gamma(5, &mut out);
    assert_eq!(out, vec![0x05]);
}

#[test]
fn gamma_struct() {
    let (g, p) = Gamma::read(&[0x80, 0x96, 0x01], 0).unwrap();
    assert_eq!(g, Gamma { value: 150 });
    assert_eq!(p, 2);
    assert_eq!(g.byte_len(), 2);
    let mut out = vec![];
    g.write(&mut out);
    assert_eq!(out, vec![0x80, 0x96]);
}
