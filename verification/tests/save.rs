use ottd_map_parser::chtable::{
    ChSparseTableElement, ChTableElement, TableData, TableDataType, TableHeaderProperty,
    TableString, TableStruct,
};
use ottd_map_parser::error::Error;
use ottd_map_parser::save::container::{LZMA_PRESET, ZSTD_LEVEL};
use std::io::Write;
use ottd_map_parser::save::{
    chunk_reader, chunk_writer, compress_save, decode, decompress_save, encode, is_written_plain,
    ChArrayElement, ChSparseArrayElement, Chunk, ChunkType, ChunkValue, Chunks, CompressionType,
    OuterSave, Save,
};

fn key(s: &str) -> TableString {
    TableString::from_text(s)
}

fn sample_schema() -> Vec<TableHeaderProperty> {
    vec![
        TableHeaderProperty { key: key("a"), data_type: TableDataType::UInt32 },
        TableHeaderProperty {
            key: key("b"),
            data_type: TableDataType::Struct(vec![TableHeaderProperty {
                key: key("c"),
                data_type: TableDataType::UInt8,
            }]),
        },
    ]
}

fn sample_row() -> ChTableElement {
    ChTableElement {
        data: vec![
            (key("a"), TableData::UInt32(0)),
            (
                key("b"),
                TableData::Struct(TableStruct {
                    data: vec![
                        vec![(key("c"), TableData::UInt8(1))],
                        vec![(key("c"), TableData::UInt8(2))],
                    ],
                }),
            ),
        ],
        leftover: vec![],
    }
}

fn sample_save(compression_type: CompressionType) -> Save {
    Save {
        compression_type,
        version: 0x0123,
        ignore: 0x4567,
        chunks: vec![
            Chunk { tag: *b"RIFF", value: ChunkValue::ChRiff { data: vec![1, 2, 3, 4, 5] } },
            Chunk {
                tag: *b"ARRY",
                value: ChunkValue::ChArray {
                    elements: vec![
                        ChArrayElement { data: vec![9, 8, 7] },
                        ChArrayElement { data: vec![] },
                        ChArrayElement { data: vec![0; 200] },
                    ],
                },
            },
            Chunk {
                tag: *b"SPAR",
                value: ChunkValue::ChSparseArray {
                    elements: vec![
                        ChSparseArrayElement { index: 150, data: vec![1, 2, 3] },
                        ChSparseArrayElement { index: 0, data: vec![] },
                        ChSparseArrayElement { index: 0x1234_5678, data: vec![0xFF; 3] },
                    ],
                },
            },
            Chunk {
                tag: *b"TABL",
                value: ChunkValue::ChTable {
                    header: sample_schema(),
                    elements: vec![
                        sample_row(),
                        ChTableElement { data: vec![], leftover: vec![] },
                        ChTableElement {
                            data: sample_row().data,
                            leftover: vec![0xDE, 0xAD, 0xBE, 0xEF],
                        },
                    ],
                },
            },
            Chunk {
                tag: *b"SPTB",
                value: ChunkValue::ChSparseTable {
                    header: sample_schema(),
                    elements: vec![ChSparseTableElement {
                        index: 300,
                        data: sample_row().data,
                        leftover: vec![7],
                    }],
                },
            },
        ],
    }
}

#[test]
fn empty_save() {
    let bytes = [b'O', b'T', b'T', b'N', 0, 0, 0, 0, 0, 0, 0, 0];
    let save = decode(&bytes).unwrap();
    assert_eq!(save.compression_type, CompressionType::OTTN);
    assert_eq!(save.version, 0);
    assert!(save.chunks.is_empty());
    assert_eq!(encode(&save).unwrap(), bytes.to_vec());
}

#[test]
fn single_riff_chunk() {
    let mut bytes = b"OTTN\x00\x2A\x00\x00".to_vec();
    bytes.extend_from_slice(b"TEST\x00\x00\x00\x02\xAB\xCD");
    bytes.extend_from_slice(&[0, 0, 0, 0]);
    let save = decode(&bytes).unwrap();
    assert_eq!(save.version, 42);
    assert_eq!(save.chunks.len(), 1);
    assert_eq!(save.chunks[0].tag, *b"TEST");
    assert_eq!(save.chunks[0].value, ChunkValue::ChRiff { data: vec![0xAB, 0xCD] });
    assert_eq!(encode(&save).unwrap(), bytes);
}

#[test]
fn ignored_bytes_are_kept() {
    let bytes = [b'O', b'T', b'T', b'N', 0x01, 0x02, 0xBE, 0xEF, 0, 0, 0, 0];
    let save = decode(&bytes).unwrap();
    assert_eq!(save.version, 0x0102);
    assert_eq!(save.ignore, 0xBEEF);
    assert_eq!(encode(&save).unwrap(), bytes.to_vec());
}

#[test]
fn sparse_index() {
    let row = ChSparseArrayElement { index: 150, data: vec![0x01, 0x02, 0x03] };
    let mut out = vec![];
    row.write(&mut out);
    assert_eq!(out, vec![0x06, 0x80, 0x96, 0x01, 0x02, 0x03]);
    assert_eq!(ChSparseArrayElement::read(&out, 0), Ok((row, 6)));
}

#[test]
fn array_row() {
    let row = ChArrayElement { data: vec![0xAA, 0xBB] };
    let mut out = vec![];
    row.write(&mut out);
    assert_eq!(out, vec![0x03, 0xAA, 0xBB]);
    assert_eq!(ChArrayElement::read(&out, 0), Ok((row, 3)));
    assert_eq!(ChArrayElement::read(&[0x03, 0xAA], 0), Err(Error::Truncated));
}

#[test]
fn table_with_nested_struct() {
    let row = sample_row();
    assert_eq!(row.check(&sample_schema()), Ok(()));
    let mut out = vec![];
    row.write(&mut out);
    assert_eq!(out, vec![1 + 4 + (1 + 1 + 1), 0x00, 0x00, 0x00, 0x00, 0x02, 0x01, 0x02]);
    assert_eq!(out[0] as usize, out.len());
    let (back, p) = ChTableElement::read(&out, 0, &sample_schema()).unwrap();
    assert_eq!(p, 8);
    assert_eq!(back, row);
    assert!(back.leftover.is_empty());
}

#[test]
fn leftover_survives() {
    let row = ChTableElement { data: sample_row().data, leftover: vec![0xDE, 0xAD] };
    let mut out = vec![];
    row.write(&mut out);
    assert_eq!(out, vec![0x0A, 0x00, 0x00, 0x00, 0x00, 0x02, 0x01, 0x02, 0xDE, 0xAD]);
    let (back, p) = ChTableElement::read(&out, 0, &sample_schema()).unwrap();
    assert_eq!(p, 10);
    assert_eq!(back.leftover, vec![0xDE, 0xAD]);
    let mut again = vec![];
    back.write(&mut again);
    assert_eq!(again, out);
}

#[test]
fn row_too_small_for_its_schema() {
    let bytes = [0x03, 0x00, 0x00, 0x00, 0x00, 0x00];
    assert_eq!(ChTableElement::read(&bytes, 0, &sample_schema()), Err(Error::SizeMismatch));
    let bytes = [0x80, 0x00];
    assert_eq!(ChTableElement::read(&bytes, 0, &sample_schema()), Err(Error::SizeMismatch));
    let bytes = [0x01, 0x05];
    assert_eq!(ChSparseTableElement::read(&bytes, 0, &sample_schema()), Err(Error::SizeMismatch));
}

#[test]
fn empty_row_is_a_gap() {
    let (row, p) = ChTableElement::read(&[0x01], 0, &sample_schema()).unwrap();
    assert_eq!(p, 1);
    assert!(row.data.is_empty());
    assert!(row.leftover.is_empty());
    assert_eq!(row.check(&sample_schema()), Ok(()));
    let mut out = vec![];
    row.write(&mut out);
    assert_eq!(out, vec![0x01]);
}

#[test]
fn row_that_does_not_match_its_schema() {
    let wrong_key =
        ChTableElement { data: vec![(key("x"), TableData::UInt32(0))], leftover: vec![] };
    assert_eq!(wrong_key.check(&sample_schema()), Err(Error::SizeMismatch));
    let wrong_type = ChTableElement {
        data: vec![(key("a"), TableData::Int32(0)), sample_row().data.pop().unwrap()],
        leftover: vec![],
    };
    assert_eq!(wrong_type.check(&sample_schema()), Err(Error::SizeMismatch));
    let gap_with_leftover = ChTableElement { data: vec![], leftover: vec![1] };
    assert_eq!(gap_with_leftover.check(&sample_schema()), Err(Error::SizeMismatch));
    let sparse_gap = ChSparseTableElement { index: 1, data: vec![], leftover: vec![] };
    assert_eq!(sparse_gap.check(&sample_schema()), Err(Error::SizeMismatch));
}

#[test]
fn shape_byte() {
    let t = ChunkType::from_byte(0x34);
    assert_eq!(t, ChunkType { chunk_type: 4, riff_size: 3 });
    assert_eq!(t.to_byte(), 0x34);
    let riff = ChunkValue::ChRiff { data: vec![0; 5] };
    assert_eq!(ChunkType::get_chunk_type(&riff), ChunkType { chunk_type: 0, riff_size: 0 });
    let table = ChunkValue::ChTable { header: vec![], elements: vec![] };
    assert_eq!(ChunkType::get_chunk_type(&table).to_byte(), 3);
}

#[test]
fn riff_length_uses_the_high_nibble() {
    let mut bytes = b"BIGG\x10\x00\x00\x01".to_vec();
    assert_eq!(Chunk::read(&bytes, 0), Err(Error::Truncated));
    bytes = b"BIGG\x00\x00\x00\x01\x7F".to_vec();
    let (chunk, p) = Chunk::read(&bytes, 0).unwrap();
    assert_eq!(p, 9);
    assert_eq!(chunk.value, ChunkValue::ChRiff { data: vec![0x7F] });
}

#[test]
fn unknown_shape() {
    let bytes = b"WHAT\x05\x00".to_vec();
    assert_eq!(Chunk::read(&bytes, 0), Err(Error::InvalidChunk));
    let bytes = b"WHAT\x0F".to_vec();
    assert_eq!(Chunk::read(&bytes, 0), Err(Error::InvalidChunk));
}

#[test]
fn zero_tag_is_no_chunk() {
    let chunk = Chunk { tag: [0, 0, 0, 0], value: ChunkValue::ChRiff { data: vec![] } };
    assert_eq!(chunk.check(), Err(Error::InvalidChunk));
    let save = Save {
        compression_type: CompressionType::OTTN,
        version: 1,
        ignore: 0,
        chunks: vec![chunk],
    };
    assert_eq!(encode(&save), Err(Error::InvalidChunk));
}

#[test]
fn decoded_chunks_have_no_zero_tag() {
    let mut bytes = b"OTTN\x00\x01\x00\x00".to_vec();
    bytes.extend_from_slice(b"AAAA\x00\x00\x00\x00");
    bytes.extend_from_slice(&[0, 0, 0, 0]);
    bytes.extend_from_slice(b"BBBB\x00\x00\x00\x00");
    let save = decode(&bytes).unwrap();
    assert_eq!(save.chunks.len(), 1);
    assert!(save.chunks.iter().all(|c| c.tag != [0, 0, 0, 0]));
}

#[test]
fn payload_without_terminator() {
    let mut bytes = b"OTTN\x00\x01\x00\x00".to_vec();
    assert_eq!(decode(&bytes), Err(Error::Truncated));
    bytes.extend_from_slice(b"AAAA\x00\x00\x00\x00");
    assert_eq!(decode(&bytes), Err(Error::Truncated));
    bytes.extend_from_slice(&[0, 0, 0]);
    assert_eq!(decode(&bytes), Err(Error::Truncated));
}

#[test]
fn header_cut_short() {
    assert_eq!(decode(b"OTT"), Err(Error::Truncated));
    assert_eq!(decode(b"OTTN\x00\x01\x00"), Err(Error::Truncated));
    assert_eq!(decode(b"OTTD\x00\x01\x00"), Err(Error::Truncated));
}

#[test]
fn unsupported_compression() {
    assert_eq!(decode(b"OTTD\x00\x01\x00\x00\x00\x00\x00\x00"), Err(Error::UnsupportedCompression));
    assert_eq!(decode(b"OTTZ\x00\x01\x00\x00\x00\x00\x00\x00"), Err(Error::UnsupportedCompression));
    assert_eq!(decode(b"ABCD\x00\x01\x00\x00\x00\x00\x00\x00"), Err(Error::UnsupportedCompression));
    assert_eq!(encode(&sample_save(CompressionType::OTTD)), Err(Error::UnsupportedCompression));
    assert_eq!(encode(&sample_save(CompressionType::OTTZ)), Err(Error::UnsupportedCompression));
    assert_eq!(compress_save(&CompressionType::OTTZ, &[1]), Err(Error::UnsupportedCompression));
    assert_eq!(decompress_save(&CompressionType::OTTD, &[1]), Err(Error::UnsupportedCompression));
}

#[test]
fn compression_failure() {
    assert_eq!(
        decode(b"OTTX\x00\x01\x00\x00not an xz stream at all"),
        Err(Error::CompressionFailure)
    );
    assert_eq!(
        decode(b"OTTS\x00\x01\x00\x00not a zstd frame at all"),
        Err(Error::CompressionFailure)
    );
}

#[test]
fn uncompressed_round_trip() {
    let save = sample_save(CompressionType::OTTN);
    let bytes = encode(&save).unwrap();
    assert_eq!(&bytes[..8], b"OTTN\x01\x23\x45\x67");
    assert_eq!(&bytes[bytes.len() - 4..], &[0, 0, 0, 0]);
    let back = decode(&bytes).unwrap();
    assert_eq!(back, save);
    assert_eq!(encode(&back).unwrap(), bytes);
}

#[test]
fn lzma_round_trip() {
    let save = sample_save(CompressionType::OTTX);
    let bytes = encode(&save).unwrap();
    assert_eq!(&bytes[..8], b"OTTX\x01\x23\x45\x67");
    assert_eq!(&bytes[8..14], &[0xFD, b'7', b'z', b'X', b'Z', 0x00]);
    let back = decode(&bytes).unwrap();
    assert_eq!(back, save);
    assert_eq!(decode(&encode(&back).unwrap()).unwrap(), back);
}

#[test]
fn zstd_round_trip() {
    let save = sample_save(CompressionType::OTTS);
    let bytes = encode(&save).unwrap();
    assert_eq!(&bytes[..8], b"OTTS\x01\x23\x45\x67");
    assert_eq!(&bytes[8..12], &[0x28, 0xB5, 0x2F, 0xFD]);
    let back = decode(&bytes).unwrap();
    assert_eq!(back, save);
    assert_eq!(decode(&encode(&back).unwrap()).unwrap(), back);
}

#[test]
fn codecs_pack_and_unpack() {
    let blob: Vec<u8> = (0..4000u32).map(|i| (i % 7) as u8).collect();
    for c in [CompressionType::OTTX, CompressionType::OTTS] {
        let packed = compress_save(&c, &blob).unwrap();
        assert_ne!(packed, blob);
        assert!(packed.len() < blob.len());
        assert_eq!(decompress_save(&c, &packed).unwrap(), blob);
    }
    let same = compress_save(&CompressionType::OTTN, &blob).unwrap();
    assert_eq!(same, blob);
    assert_eq!(decompress_save(&CompressionType::OTTN, &same).unwrap(), blob);
}

#[test]
fn outer_save_and_chunks() {
    let save = sample_save(CompressionType::OTTS);
    let bytes = encode(&save).unwrap();
    let outer = OuterSave::read(&bytes).unwrap();
    assert_eq!(outer.compression_type, CompressionType::OTTS);
    assert_eq!(outer.version, 0x0123);
    assert_eq!(outer.ignore, 0x4567);
    let (chunks, end) = Chunks::read(&outer.data, 0).unwrap();
    assert_eq!(end, outer.data.len());
    assert_eq!(chunks.chunks, save.chunks);
    let mut d = vec![];
    assert_eq!(chunks.check(), Ok(()));
    chunks.write(&mut d);
    assert_eq!(&outer.data, &d);
    let plain = OuterSave { compression_type: CompressionType::OTTN, ..outer.clone() };
    let written = plain.write().unwrap();
    assert_eq!(&written[..8], b"OTTN\x01\x23\x45\x67");
    assert_eq!(&written[8..], &outer.data[..]);
}

#[test]
fn get_by_tag() {
    let save = sample_save(CompressionType::OTTN);
    assert_eq!(save.get(b"RIFF"), Some(&ChunkValue::ChRiff { data: vec![1, 2, 3, 4, 5] }));
    assert!(matches!(save.get(b"TABL"), Some(ChunkValue::ChTable { .. })));
    assert_eq!(save.get(b"NONE"), None);
}

#[test]
fn over_long_gamma_is_not_written_back() {
    let mut bytes = b"OTTN\x00\x01\x00\x00".to_vec();
    bytes.extend_from_slice(b"ARRY\x01");
    bytes.extend_from_slice(&[0x80, 0x02, 0xAA, 0x00]);
    bytes.extend_from_slice(&[0, 0, 0, 0]);
    let save = decode(&bytes).unwrap();
    assert_eq!(
        save.chunks[0].value,
        ChunkValue::ChArray { elements: vec![ChArrayElement { data: vec![0xAA] }] }
    );
    let again = encode(&save).unwrap();
    assert_ne!(again, bytes);
    assert_eq!(decode(&again).unwrap(), save);
}

#[test]
fn table_chunk_on_the_wire() {
    let chunk = Chunk {
        tag: *b"TABL",
        value: ChunkValue::ChTable { header: sample_schema(), elements: vec![sample_row()] },
    };
    assert_eq!(chunk.check(), Ok(()));
    let mut out = vec![];
    chunk.write(&mut out);
    let mut expected = b"TABL\x03".to_vec();
    expected.push(12);
    expected.extend_from_slice(&[6, 1, b'a', 0x1B, 1, b'b', 0]);
    expected.extend_from_slice(&[2, 1, b'c', 0]);
    expected.extend_from_slice(&[0x08, 0, 0, 0, 0, 2, 1, 2]);
    expected.push(0);
    assert_eq!(out, expected);
    assert_eq!(Chunk::read(&out, 0), Ok((chunk, out.len())));
}

#[test]
fn bytes_as_the_writer_gives_them() {
    let good = encode(&sample_save(CompressionType::OTTN)).unwrap();
    assert!(is_written_plain(&good));
    let mut trailing = good.clone();
    trailing.push(0);
    assert!(!is_written_plain(&trailing));
    assert_eq!(decode(&trailing), decode(&good));
    let mut over_long = b"OTTN\x00\x01\x00\x00".to_vec();
    over_long.extend_from_slice(b"ARRY\x01\x80\x02\xAA\x00");
    over_long.extend_from_slice(&[0, 0, 0, 0]);
    assert!(decode(&over_long).is_ok());
    assert!(!is_written_plain(&over_long));
    let mut wrong_schema_size = b"OTTN\x00\x01\x00\x00".to_vec();
    wrong_schema_size.extend_from_slice(b"TABL\x03\x63\x00\x00");
    wrong_schema_size.extend_from_slice(&[0, 0, 0, 0]);
    assert!(decode(&wrong_schema_size).is_ok());
    assert!(!is_written_plain(&wrong_schema_size));
    wrong_schema_size[13] = 2;
    assert!(is_written_plain(&wrong_schema_size));
    assert!(!is_written_plain(&encode(&sample_save(CompressionType::OTTS)).unwrap()));
    assert!(!is_written_plain(b"OTTN"));
}

#[test]
fn chunk_keys() {
    let chunk = Chunk { tag: *b"CITY", value: ChunkValue::ChRiff { data: vec![] } };
    assert_eq!(chunk.key(), "CITY");
    assert_eq!(Chunk::tag_of_key("CITY"), Some(*b"CITY"));
    assert_eq!(Chunk::tag_of_key("CIT"), None);
    assert_eq!(Chunk::tag_of_key("CITYS"), None);
    assert_eq!(Chunk::tag_of_key("\u{e9}ab"), Some([0xC3, 0xA9, b'a', b'b']));
    let odd = Chunk { tag: [0xFF, b'A', b'B', b'C'], value: ChunkValue::ChRiff { data: vec![] } };
    assert_eq!(odd.key(), "\u{FFFD}ABC");
}

#[test]
fn reading_and_writing_chunks_through_a_codec() {
    let save = sample_save(CompressionType::OTTS);
    let packed = chunk_writer(&save.chunks, &CompressionType::OTTS).unwrap();
    assert_eq!(chunk_reader(&CompressionType::OTTS, &packed), Ok(save.chunks));
    let plain = chunk_writer(&sample_save(CompressionType::OTTN).chunks, &CompressionType::OTTN)
        .unwrap();
    assert_eq!(chunk_reader(&CompressionType::OTTX, &plain), Err(Error::CompressionFailure));
    assert_eq!(
        chunk_writer(&vec![], &CompressionType::OTTD),
        Err(Error::UnsupportedCompression)
    );
    assert_eq!(chunk_writer(&vec![], &CompressionType::OTTN), Ok(vec![0, 0, 0, 0]));
}

#[test]
fn what_was_read_can_be_written() {
    let mut bytes = b"OTTN\x00\x01\x00\x00".to_vec();
    bytes.extend_from_slice(b"SPAR\x02\x01\x05\x00");
    bytes.extend_from_slice(b"TABL\x03\x00");
    bytes.extend_from_slice(&[6, 0x81, 0x00]);
    bytes.extend_from_slice(&[b'k'; 256]);
    bytes.extend_from_slice(&[0, 0x80, 0x05, 1, 2, 3, 4, 0, 0]);
    bytes.extend_from_slice(&[0, 0, 0, 0]);
    let save = decode(&bytes).unwrap();
    assert_eq!(save.check(), Ok(()));
    let again = encode(&save).unwrap();
    assert_ne!(again, bytes);
    assert_eq!(decode(&again).unwrap(), save);
    assert!(is_written_plain(&again));
}

#[test]
fn riff_too_long_for_its_size_field() {
    let longest = ChunkValue::ChRiff { data: vec![0; 0x0FFF_FFFF] };
    assert_eq!(longest.check(), Ok(()));
    assert_eq!(ChunkType::get_chunk_type(&longest), ChunkType { chunk_type: 0, riff_size: 0x0F });
    let too_long = ChunkValue::ChRiff { data: vec![0; 0x1000_0000] };
    assert_eq!(too_long.check(), Err(Error::IntegerOverflow));
    let save = Save {
        compression_type: CompressionType::OTTN,
        version: 1,
        ignore: 0,
        chunks: vec![Chunk { tag: *b"HUGE", value: too_long }],
    };
    assert_eq!(save.check(), Err(Error::IntegerOverflow));
    assert_eq!(encode(&save), Err(Error::IntegerOverflow));
}

#[test]
fn packing_uses_the_presets_of_the_format() {
    assert_eq!(LZMA_PRESET, 2);
    assert_eq!(ZSTD_LEVEL, 0);
    let blob: Vec<u8> = (0..200_000u32).map(|i| ((i * i) % 251) as u8).collect();
    let mut encoder = xz2::write::XzEncoder::new(Vec::new(), 2);
    encoder.write_all(&blob).unwrap();
    let preset_two = encoder.finish().unwrap();
    assert_eq!(compress_save(&CompressionType::OTTX, &blob).unwrap(), preset_two);
    let default_level = zstd::stream::encode_all(&blob[..], 0).unwrap();
    assert_eq!(compress_save(&CompressionType::OTTS, &blob).unwrap(), default_level);
    assert_eq!(default_level, zstd::stream::encode_all(&blob[..], 3).unwrap());
    assert_ne!(default_level, zstd::stream::encode_all(&blob[..], 19).unwrap());
}

#[test]
fn packing_is_repeatable() {
    for c in [CompressionType::OTTN, CompressionType::OTTX, CompressionType::OTTS] {
        let first = encode(&sample_save(c)).unwrap();
        let second = encode(&sample_save(c)).unwrap();
        assert_eq!(first, second);
        let payload = chunk_writer(&sample_save(c).chunks, &c).unwrap();
        assert_eq!(&first[8..], &payload[..]);
    }
}

#[test]
fn chunks_survive_a_map_keyed_by_tag() {
    for c in [CompressionType::OTTN, CompressionType::OTTX, CompressionType::OTTS] {
        let bytes = chunk_writer(&sample_save(c).chunks, &c).unwrap();
        let first = chunk_reader(&c, &bytes).unwrap();
        let keys: Vec<String> = first.iter().map(|chunk| chunk.key()).collect();
        assert_eq!(keys, vec!["RIFF", "ARRY", "SPAR", "TABL", "SPTB"]);
        let rebuilt: Vec<Chunk> = keys
            .iter()
            .zip(chunk_reader(&c, &bytes).unwrap())
            .map(|(key, chunk)| Chunk { tag: Chunk::tag_of_key(key).unwrap(), value: chunk.value })
            .collect();
        let again = chunk_writer(&rebuilt, &c).unwrap();
        assert_eq!(chunk_reader(&c, &again).unwrap(), first);
    }
}

#[test]
fn key_of_a_tag_gives_the_tag_back() {
    for tag in [*b"TEST", *b"CITY", *b"SLXI", [b'a', 0x7F, b' ', b'0'], [0xC3, 0xA9, b'x', b'y']] {
        let key = Chunk::key_of_tag(&tag);
        assert_eq!(Chunk::tag_of_key(&key), Some(tag));
    }
    assert_ne!(Chunk::tag_of_key(&Chunk::key_of_tag(&[0xFF, b'A', b'B', b'C'])), Some([0xFF, b'A', b'B', b'C']));
}
