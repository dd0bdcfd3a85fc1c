use ottd_map_parser::chtable::property::{check_schema, read_schema, write_schema};
use ottd_map_parser::chtable::{
    SleType, StructHeader, StructHeaderProperty, TableData, TableDataList, TableDataType,
    TableHeaderProperty, TableString, TableStruct,
};
use ottd_map_parser::error::Error;

fn key(s: &str) -> TableString {
    TableString::from_text(s)
}

fn prop(k: &str, data_type: TableDataType) -> TableHeaderProperty {
    TableHeaderProperty { key: key(k), data_type }
}

fn nested_schema() -> Vec<TableHeaderProperty> {
    vec![
        prop("id", TableDataType::UInt32),
        prop(
            "outer",
            TableDataType::Struct(vec![
                prop("x", TableDataType::Int8),
                prop("inner", TableDataType::Struct(vec![prop("deep", TableDataType::Str)])),
                prop("y", TableDataType::UInt64List),
            ]),
        ),
        prop("name", TableDataType::Str),
        prop("other", TableDataType::Struct(vec![])),
    ]
}

#[test]
fn type_tags() {
    let tags = [
        (SleType::Int8, 1),
        (SleType::UInt8, 2),
        (SleType::Int16, 3),
        (SleType::UInt16, 4),
        (SleType::Int32, 5),
        (SleType::UInt32, 6),
        (SleType::Int64, 7),
        (SleType::UInt64, 8),
        (SleType::StringId, 9),
        (SleType::Int8List, 0b10001),
        (SleType::UInt8List, 0b10010),
        (SleType::Int16List, 0b10011),
        (SleType::UInt16List, 0b10100),
        (SleType::Int32List, 0b10101),
        (SleType::UInt32List, 0b10110),
        (SleType::Int64List, 0b10111),
        (SleType::UInt64List, 0b11000),
        (SleType::StringIdList, 0b11001),
        (SleType::Str, 0b11010),
        (SleType::Struct, 0b11011),
    ];
    for (t, b) in tags {
        assert_eq!(t.to_byte(), b);
        assert_eq!(SleType::from_byte(b), Some(t));
    }
    assert_eq!(SleType::from_byte(0), None);
    assert_eq!(SleType::from_byte(10), None);
    assert_eq!(SleType::from_byte(0x1C), None);
    assert_eq!(SleType::from_byte(0xFF), None);
}

#[test]
fn schema_on_the_wire() {
    let schema =
        vec![prop("a", TableDataType::UInt32), prop("b", TableDataType::Struct(vec![prop("c", TableDataType::UInt8)]))];
    assert_eq!(check_schema(&schema), Ok(()));
    let mut out = vec![];
    write_schema(&schema, &mut out);
    assert_eq!(out, vec![6, 1, b'a', 0x1B, 1, b'b', 0, 2, 1, b'c', 0]);
    let header = StructHeader::from_properties(&schema);
    assert_eq!(header.byte_len(), 11);
    assert_eq!(header.properties[0].byte_len(), 3);
    assert_eq!(header.bounded_len(11), Some(11));
    assert_eq!(header.bounded_len(10), None);
    assert_eq!(read_schema(&out, 0), Ok((schema, 11)));
}

#[test]
fn schema_round_trip() {
    let schema = nested_schema();
    assert_eq!(check_schema(&schema), Ok(()));
    let mut out = vec![0xEE];
    write_schema(&schema, &mut out);
    out.push(0x77);
    let (back, end) = read_schema(&out, 1).unwrap();
    assert_eq!(end, out.len() - 1);
    assert_eq!(back, schema);
    let header = StructHeader::from_properties(&schema);
    assert_eq!(header.sub_headers.len(), 2);
    assert_eq!(header.sub_headers[0].sub_headers.len(), 1);
    assert_eq!(header.byte_len(), out.len() - 2);
    assert_eq!(header.into_properties(), Ok(nested_schema()));
}

#[test]
fn schema_with_a_key_twice() {
    let schema = vec![prop("a", TableDataType::UInt32), prop("a", TableDataType::UInt8)];
    assert_eq!(check_schema(&schema), Err(Error::MalformedSchema));
    let nested = vec![prop(
        "s",
        TableDataType::Struct(vec![prop("k", TableDataType::Str), prop("k", TableDataType::Str)]),
    )];
    assert_eq!(check_schema(&nested), Err(Error::MalformedSchema));
    let same_key_at_two_depths =
        vec![prop("k", TableDataType::Struct(vec![prop("k", TableDataType::Str)]))];
    assert_eq!(check_schema(&same_key_at_two_depths), Ok(()));
    let wire = [6, 1, b'a', 2, 1, b'a', 0];
    assert_eq!(read_schema(&wire, 0), Err(Error::MalformedSchema));
}

#[test]
fn schema_with_an_unknown_tag() {
    assert_eq!(read_schema(&[10, 1, b'a', 0], 0), Err(Error::MalformedSchema));
    assert_eq!(StructHeaderProperty::read(&[0x1C, 0], 0), Err(Error::MalformedSchema));
}

#[test]
fn schema_cut_short() {
    assert_eq!(read_schema(&[], 0), Err(Error::Truncated));
    assert_eq!(read_schema(&[6, 1, b'a'], 0), Err(Error::Truncated));
    assert_eq!(read_schema(&[6, 5, b'a', 0], 0), Err(Error::Truncated));
    assert_eq!(read_schema(&[0x1B, 1, b'b', 0], 0), Err(Error::Truncated));
    assert_eq!(read_schema(&[0x1B, 1, b'b', 0, 2, 1], 0), Err(Error::Truncated));
}

#[test]
fn wire_layout_with_wrong_number_of_sub_schemas() {
    let missing = StructHeader {
        properties: vec![StructHeaderProperty { data_type: SleType::Struct, key: key("s") }],
        sub_headers: vec![],
    };
    assert_eq!(missing.into_properties(), Err(Error::MalformedSchema));
    let extra = StructHeader {
        properties: vec![StructHeaderProperty { data_type: SleType::UInt8, key: key("s") }],
        sub_headers: vec![StructHeader { properties: vec![], sub_headers: vec![] }],
    };
    assert_eq!(extra.into_properties(), Err(Error::MalformedSchema));
}

#[test]
fn value_byte_lengths() {
    assert_eq!(TableData::Int8(-1).byte_len(), 1);
    assert_eq!(TableData::UInt8(1).byte_len(), 1);
    assert_eq!(TableData::Int16(-1).byte_len(), 2);
    assert_eq!(TableData::UInt16(1).byte_len(), 2);
    assert_eq!(TableData::Int32(-1).byte_len(), 4);
    assert_eq!(TableData::UInt32(1).byte_len(), 4);
    assert_eq!(TableData::Int64(-1).byte_len(), 8);
    assert_eq!(TableData::UInt64(1).byte_len(), 8);
    assert_eq!(TableData::StringId(1).byte_len(), 2);
    assert_eq!(TableData::Str(key("hello")).byte_len(), 6);
    assert_eq!(TableData::Str(TableString::new(vec![b'x'; 200])).byte_len(), 202);
    assert_eq!(TableData::Int8List(vec![1, 2, 3]).byte_len(), 4);
    assert_eq!(TableData::UInt16List(vec![1, 2, 3]).byte_len(), 7);
    assert_eq!(TableData::Int32List(vec![1, 2, 3]).byte_len(), 13);
    assert_eq!(TableData::UInt64List(vec![0; 128]).byte_len(), 2 + 1024);
    assert_eq!(TableData::StringIdList(vec![1, 2]).byte_len(), 5);
    let rows = TableData::Struct(TableStruct {
        data: vec![
            vec![(key("c"), TableData::UInt8(1)), (key("d"), TableData::Str(key("ab")))],
            vec![(key("c"), TableData::UInt8(2)), (key("d"), TableData::Str(key("")))],
        ],
    });
    assert_eq!(rows.byte_len(), 1 + (1 + 3) + (1 + 1));
    assert_eq!(rows.bounded_len(7), Some(7));
    assert_eq!(rows.bounded_len(6), None);
}

#[test]
fn scalars_are_big_endian() {
    let cases: Vec<(TableData, TableDataType, Vec<u8>)> = vec![
        (TableData::Int8(-2), TableDataType::Int8, vec![0xFE]),
        (TableData::UInt8(0xFE), TableDataType::UInt8, vec![0xFE]),
        (TableData::Int16(-2), TableDataType::Int16, vec![0xFF, 0xFE]),
        (TableData::UInt16(0x1234), TableDataType::UInt16, vec![0x12, 0x34]),
        (TableData::Int32(-2), TableDataType::Int32, vec![0xFF, 0xFF, 0xFF, 0xFE]),
        (TableData::Int32(i32::MIN), TableDataType::Int32, vec![0x80, 0, 0, 0]),
        (TableData::UInt32(0x1234_5678), TableDataType::UInt32, vec![0x12, 0x34, 0x56, 0x78]),
        (TableData::Int64(-2), TableDataType::Int64, vec![0xFF; 7].into_iter().chain([0xFE]).collect()),
        (TableData::Int64(i64::MIN), TableDataType::Int64, vec![0x80, 0, 0, 0, 0, 0, 0, 0]),
        (TableData::Int64(i64::MAX), TableDataType::Int64, vec![0x7F, 0xFF, 0xFF, 0xFF, 0xFF, 0xFF, 0xFF, 0xFF]),
        (
            TableData::UInt64(0x0102_0304_0506_0708),
            TableDataType::UInt64,
            vec![1, 2, 3, 4, 5, 6, 7, 8],
        ),
        (TableData::UInt64(u64::MAX), TableDataType::UInt64, vec![0xFF; 8]),
        (TableData::StringId(0xABCD), TableDataType::StringId, vec![0xAB, 0xCD]),
        (TableData::Str(key("hi")), TableDataType::Str, vec![2, b'h', b'i']),
        (TableData::Int8List(vec![-1, 1]), TableDataType::Int8List, vec![2, 0xFF, 1]),
        (TableData::UInt8List(vec![]), TableDataType::UInt8List, vec![0]),
        (TableData::Int16List(vec![-1]), TableDataType::Int16List, vec![1, 0xFF, 0xFF]),
        (TableData::UInt16List(vec![1, 2]), TableDataType::UInt16List, vec![2, 0, 1, 0, 2]),
        (TableData::Int32List(vec![-1]), TableDataType::Int32List, vec![1, 0xFF, 0xFF, 0xFF, 0xFF]),
        (TableData::UInt32List(vec![7]), TableDataType::UInt32List, vec![1, 0, 0, 0, 7]),
        (TableData::Int64List(vec![-1]), TableDataType::Int64List, vec![1, 255, 255, 255, 255, 255, 255, 255, 255]),
        (TableData::UInt64List(vec![7]), TableDataType::UInt64List, vec![1, 0, 0, 0, 0, 0, 0, 0, 7]),
        (TableData::StringIdList(vec![0x0102]), TableDataType::StringIdList, vec![1, 1, 2]),
    ];
    for (value, data_type, wire) in cases {
        let p = prop("k", data_type);
        assert!(value.fits(&p));
        assert!(value.is_writable());
        let mut out = vec![];
        value.write(&mut out);
        assert_eq!(out, wire);
        assert_eq!(value.byte_len(), wire.len());
        assert_eq!(TableData::read(&wire, 0, &p), Ok((value, wire.len())));
        assert_eq!(TableData::read(&wire[..wire.len() - 1], 0, &p), Err(Error::Truncated));
    }
}

#[test]
fn value_of_another_type_does_not_fit() {
    assert!(!TableData::UInt8(1).fits(&prop("k", TableDataType::Int8)));
    assert!(!TableData::StringId(1).fits(&prop("k", TableDataType::UInt16)));
    assert!(!TableData::UInt16List(vec![]).fits(&prop("k", TableDataType::StringIdList)));
    assert!(!TableData::Str(key("")).fits(&prop("k", TableDataType::UInt8List)));
    let schema = vec![prop("c", TableDataType::UInt8)];
    let rows = TableData::Struct(TableStruct { data: vec![vec![(key("c"), TableData::UInt8(1))]] });
    assert!(rows.fits(&prop("k", TableDataType::Struct(schema))));
    assert!(!rows.fits(&prop("k", TableDataType::Struct(vec![prop("d", TableDataType::UInt8)]))));
    assert!(!rows.fits(&prop("k", TableDataType::Struct(vec![]))));
    assert!(!rows.fits(&prop("k", TableDataType::Str)));
}

#[test]
fn nested_rows_round_trip() {
    let schema = nested_schema();
    let p = prop("all", TableDataType::Struct(schema));
    let row = |n: u32| {
        vec![
            (key("id"), TableData::UInt32(n)),
            (
                key("outer"),
                TableData::Struct(TableStruct {
                    data: vec![vec![
                        (key("x"), TableData::Int8(-5)),
                        (
                            key("inner"),
                            TableData::Struct(TableStruct {
                                data: vec![
                                    vec![(key("deep"), TableData::Str(key("one")))],
                                    vec![(key("deep"), TableData::Str(key("")))],
                                ],
                            }),
                        ),
                        (key("y"), TableData::UInt64List(vec![1, u64::MAX])),
                    ]],
                }),
            ),
            (key("name"), TableData::Str(TableString::new(vec![0xFF, 0xFE]))),
            (key("other"), TableData::Struct(TableStruct { data: vec![vec![], vec![]] })),
        ]
    };
    let value = TableData::Struct(TableStruct { data: vec![row(1), row(2), row(3)] });
    assert!(value.fits(&p));
    let mut out = vec![];
    value.write(&mut out);
    assert_eq!(out.len(), value.byte_len());
    assert_eq!(TableData::read(&out, 0, &p), Ok((value, out.len())));
}

#[test]
fn list_of_integers() {
    let list = TableDataList::<i16> { data: vec![-1, 2, 300] };
    let mut out = vec![];
    list.write(&mut out);
    assert_eq!(out, vec![3, 0xFF, 0xFF, 0, 2, 1, 44]);
    assert_eq!(list.byte_len(), 7);
    assert_eq!(TableDataList::<i16>::read(&out, 0), Ok((list, 7)));
    assert_eq!(TableDataList::<i16>::read(&[3, 0, 1], 0).map(|r| r.1), Err(Error::Truncated));
}

#[test]
fn strings_keep_their_bytes() {
    let s = TableString::new(vec![b'a', 0xFF, b'b']);
    let mut out = vec![];
    s.write(&mut out);
    assert_eq!(out, vec![3, b'a', 0xFF, b'b']);
    assert_eq!(TableString::read(&out, 0), Ok((s.duplicate(), 4)));
    assert_eq!(s.to_string_lossy(), "a\u{FFFD}b");
    assert_eq!(s.to_utf8(), Err(Error::InvalidUtf8));
    let t = TableString::from_text("Grünberg");
    assert_eq!(t.len(), 9);
    assert_eq!(t.byte_len(), 10);
    assert_eq!(t.to_string_lossy(), "Grünberg");
    assert_eq!(t.to_utf8(), Ok(String::from("Grünberg")));
    assert!(t.is_text("Grünberg"));
    assert!(!t.is_text("Grunberg"));
    assert!(t.same_as(&t.duplicate()));
    assert!(!t.same_as(&s));
    assert_eq!(t.as_bytes(), "Grünberg".as_bytes());
}

#[test]
fn error_messages() {
    let all = [
        Error::UnsupportedCompression,
        Error::CompressionFailure,
        Error::Truncated,
        Error::MalformedSchema,
        Error::SizeMismatch,
        Error::InvalidUtf8,
        Error::IntegerOverflow,
        Error::InvalidChunk,
    ];
    for (i, a) in all.iter().enumerate() {
        for b in &all[..i] {
            assert_ne!(a.message(), b.message());
        }
    }
    assert_eq!(Error::Truncated.message(), "truncated input");
}

#[test]
fn copies_at_every_depth() {
    let schema = nested_schema();
    let copy: Vec<TableHeaderProperty> = schema.iter().map(|p| p.duplicate()).collect();
    assert_eq!(copy, schema);
    assert_eq!(ottd_map_parser::chtable::copy::copy_schema(&schema), schema);
    let value = TableData::Struct(TableStruct {
        data: vec![
            vec![
                (key("x"), TableData::Int8(-5)),
                (key("y"), TableData::UInt64List(vec![1, u64::MAX])),
                (key("s"), TableData::Str(TableString::new(vec![0xFF]))),
                (
                    key("t"),
                    TableData::Struct(TableStruct { data: vec![vec![(key("u"), TableData::StringId(7))]] }),
                ),
            ],
            vec![],
        ],
    });
    let mut copy = value.duplicate();
    assert_eq!(copy, value);
    if let TableData::Struct(rows) = &mut copy {
        rows.data.pop();
    }
    assert_ne!(copy, value);
    assert_eq!(ottd_map_parser::chtable::copy::copy_list(&vec![1u16, 2, 3]), vec![1, 2, 3]);
}
