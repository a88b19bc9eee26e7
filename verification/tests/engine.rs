use raad_codegen::emit::Key;
use raad_codegen::engine::{conforms_to, copy_range, CodecError, LayoutField, Kind, Sink, Slot, Source, Value};
use raad_codegen::order::ByteOrder;
use raad_codegen::schema::{FieldDef, Generics, Input, Shape, TypeDef};
use raad_codegen::wire::{decode_uint, encode_uint, reversed};

fn slot(label: &str, value: Value) -> Slot {
    Slot { key: Key::Label(label.to_string()), value }
}

fn header() -> Vec<Slot> {
    vec![
        slot("magic", Value::Bytes(vec![0x89, 0x50, 0x4E, 0x47])),
        slot("width", Value::U32(800)),
        slot("height", Value::U32(600)),
        slot("channels", Value::U8(3)),
        slot("colorspace", Value::U8(1)),
    ]
}

fn header_layout() -> Vec<LayoutField> {
    header().iter().map(|s| LayoutField { key: s.key.clone(), kind: s.value.kind() }).collect()
}

const HEADER_LE: [u8; 14] =
    [0x89, 0x50, 0x4E, 0x47, 0x20, 0x03, 0x00, 0x00, 0x58, 0x02, 0x00, 0x00, 0x03, 0x01];
const HEADER_BE: [u8; 14] =
    [0x89, 0x50, 0x4E, 0x47, 0x00, 0x00, 0x03, 0x20, 0x00, 0x00, 0x02, 0x58, 0x03, 0x01];

#[test]
fn header_little_endian() {
    let mut sink = Sink::new(64);
    assert_eq!(sink.write_record(&header(), ByteOrder::Little), Ok(()));
    assert_eq!(sink.bytes, HEADER_LE.to_vec());
    let mut source = Source::new(sink.bytes);
    assert_eq!(source.read_record(&header_layout(), ByteOrder::Little), Ok(header()));
    assert_eq!(source.pos, 14);
}

#[test]
fn header_big_endian() {
    let mut sink = Sink::new(64);
    assert_eq!(sink.write_record(&header(), ByteOrder::Big), Ok(()));
    assert_eq!(sink.bytes, HEADER_BE.to_vec());
    let mut source = Source::new(sink.bytes);
    assert_eq!(source.read_record(&header_layout(), ByteOrder::Big), Ok(header()));
    assert_eq!(source.pos, 14);
}

#[test]
fn round_trip_of_every_kind() {
    let record = vec![
        Slot { key: Key::Position(0), value: Value::U8(0xAB) },
        Slot { key: Key::Position(1), value: Value::U16(0xBEEF) },
        Slot { key: Key::Position(2), value: Value::U32(0xDEADBEEF) },
        Slot { key: Key::Position(3), value: Value::U64(0x0123_4567_89AB_CDEF) },
        Slot { key: Key::Position(4), value: Value::Bytes(vec![]) },
        Slot { key: Key::Position(5), value: Value::Bytes(vec![1, 2, 3]) },
        Slot { key: Key::Position(6), value: Value::U64(u64::MAX) },
    ];
    let layout: Vec<LayoutField> =
        record.iter().map(|s| LayoutField { key: s.key.clone(), kind: s.value.kind() }).collect();
    for order in [ByteOrder::Little, ByteOrder::Big] {
        let mut sink = Sink::new(usize::MAX);
        assert_eq!(sink.write_record(&record, order), Ok(()));
        assert_eq!(sink.bytes.len(), 1 + 2 + 4 + 8 + 0 + 3 + 8);
        let mut source = Source::new(sink.bytes);
        assert_eq!(source.read_record(&layout, order), Ok(record.clone()));
    }
}

#[test]
fn primitive_byte_orders() {
    assert_eq!(encode_uint(0x1234, 2, ByteOrder::Little), vec![0x34, 0x12]);
    assert_eq!(encode_uint(0x1234, 2, ByteOrder::Big), vec![0x12, 0x34]);
    assert_eq!(encode_uint(0x0102030405060708, 8, ByteOrder::Big), vec![1, 2, 3, 4, 5, 6, 7, 8]);
    assert_eq!(encode_uint(0x0102030405060708, 8, ByteOrder::Little), vec![8, 7, 6, 5, 4, 3, 2, 1]);
    assert_eq!(encode_uint(0x1234, 1, ByteOrder::Big), vec![0x34]);
    assert_eq!(encode_uint(7, 0, ByteOrder::Big), Vec::<u8>::new());
    let src = vec![0xFF, 0x12, 0x34, 0x56, 0x78];
    assert_eq!(decode_uint(&src, 1, 4, ByteOrder::Big), 0x12345678);
    assert_eq!(decode_uint(&src, 1, 4, ByteOrder::Little), 0x78563412);
    assert_eq!(decode_uint(&src, 1, 0, ByteOrder::Little), 0);
    assert_eq!(reversed(&src), vec![0x78, 0x56, 0x34, 0x12, 0xFF]);
    assert_eq!(copy_range(&src, 1, 3), vec![0x12, 0x34]);
    assert_eq!(Value::U16(0x0102).encode(ByteOrder::Big), vec![1, 2]);
    assert_eq!(Value::decode(Kind::U16, &src, 3, ByteOrder::Little), Value::U16(0x7856));
    assert_eq!(Kind::Bytes(9).len(), 9);
    assert_eq!(Kind::U64.len(), 8);
}

#[test]
fn byte_orders_differ_on_a_lopsided_field() {
    let record = vec![slot("n", Value::U16(0x0100))];
    let mut le = Sink::new(8);
    let mut be = Sink::new(8);
    le.write_record(&record, ByteOrder::Little).unwrap();
    be.write_record(&record, ByteOrder::Big).unwrap();
    assert_eq!(le.bytes, vec![0x00, 0x01]);
    assert_eq!(be.bytes, vec![0x01, 0x00]);
    assert_ne!(le.bytes, be.bytes);
    let layout = vec![LayoutField { key: Key::Label("n".to_string()), kind: Kind::U16 }];
    let crossed = Source::new(le.bytes).read_record(&layout, ByteOrder::Big).unwrap();
    assert_eq!(crossed, vec![slot("n", Value::U16(0x0001))]);
    assert_ne!(crossed, record);
}

#[test]
fn byte_orders_agree_on_a_palindrome() {
    let record = vec![slot("n", Value::U32(0x12FFFF12)), slot("b", Value::Bytes(vec![1, 2]))];
    let mut le = Sink::new(8);
    let mut be = Sink::new(8);
    le.write_record(&record, ByteOrder::Little).unwrap();
    be.write_record(&record, ByteOrder::Big).unwrap();
    assert_eq!(le.bytes, be.bytes);
}

#[test]
fn write_stops_at_the_first_field_that_does_not_fit() {
    let mut sink = Sink::new(6);
    let r = sink.write_record(&header(), ByteOrder::Little);
    assert_eq!(r, Err(CodecError::SinkFull { needed: 4, room: 2 }));
    // The one-byte fields behind the failing one would fit, and are not tried.
    assert_eq!(sink.bytes, vec![0x89, 0x50, 0x4E, 0x47]);
    assert_eq!(sink.limit, 6);
}

#[test]
fn write_into_a_full_sink_changes_nothing() {
    let mut sink = Sink::new(3);
    assert_eq!(sink.write_value(&Value::U16(1), ByteOrder::Big), Ok(()));
    assert_eq!(
        sink.write_value(&Value::U16(2), ByteOrder::Big),
        Err(CodecError::SinkFull { needed: 2, room: 1 })
    );
    assert_eq!(sink.bytes, vec![0, 1]);
    assert_eq!(sink.write_record(&vec![], ByteOrder::Big), Ok(()));
    assert_eq!(sink.bytes, vec![0, 1]);
}

#[test]
fn read_stops_at_the_first_field_that_runs_short() {
    let mut source = Source::new(HEADER_BE[..10].to_vec());
    let r = source.read_record(&header_layout(), ByteOrder::Big);
    assert_eq!(r, Err(CodecError::Truncated { needed: 4, available: 2 }));
    assert_eq!(source.pos, 8);
    assert_eq!(source.bytes, HEADER_BE[..10].to_vec());
}

#[test]
fn read_value_by_value() {
    let mut source = Source::new(vec![1, 2, 3]);
    assert_eq!(source.read_value(Kind::U16, ByteOrder::Big), Ok(Value::U16(0x0102)));
    assert_eq!(
        source.read_value(Kind::U16, ByteOrder::Big),
        Err(CodecError::Truncated { needed: 2, available: 1 })
    );
    assert_eq!(source.pos, 2);
    assert_eq!(source.read_value(Kind::Bytes(1), ByteOrder::Big), Ok(Value::Bytes(vec![3])));
    assert_eq!(source.read_value(Kind::Bytes(0), ByteOrder::Big), Ok(Value::Bytes(vec![])));
    assert_eq!(
        source.read_value(Kind::Bytes(usize::MAX), ByteOrder::Little),
        Err(CodecError::Truncated { needed: usize::MAX, available: 0 })
    );
}

#[test]
fn read_leaves_what_follows_the_record() {
    let mut bytes = HEADER_LE.to_vec();
    bytes.extend_from_slice(&[0xAA, 0xBB]);
    let mut source = Source::new(bytes);
    assert_eq!(source.read_record(&header_layout(), ByteOrder::Little), Ok(header()));
    assert_eq!(source.pos, 14);
    assert_eq!(source.read_value(Kind::U16, ByteOrder::Little), Ok(Value::U16(0xBBAA)));
}

#[test]
fn positional_and_named_records_have_the_same_bytes() {
    let named = header();
    let positional: Vec<Slot> = header()
        .into_iter()
        .enumerate()
        .map(|(i, s)| Slot { key: Key::Position(i as u16), value: s.value })
        .collect();
    for order in [ByteOrder::Little, ByteOrder::Big] {
        let mut a = Sink::new(32);
        let mut b = Sink::new(32);
        a.write_record(&named, order).unwrap();
        b.write_record(&positional, order).unwrap();
        assert_eq!(a.bytes, b.bytes);
    }
}

#[test]
fn layout_takes_its_keys_from_the_schema() {
    let def = TypeDef {
        ident: "Mixed".to_string(),
        generics: Generics { params: vec![], predicates: vec![] },
        shape: Shape::Struct,
        fields: vec![
            FieldDef { label: None, ty: "u16".to_string(), markers: vec![] },
            FieldDef { label: None, ty: "[u8; 2]".to_string(), markers: vec![] },
        ],
    };
    let input = Input::parse(&def).unwrap();
    assert_eq!(input.layout(&vec![Kind::U16]), None);
    let layout = input.layout(&vec![Kind::U16, Kind::Bytes(2)]).unwrap();
    assert_eq!(
        layout,
        vec![
            LayoutField { key: Key::Position(0), kind: Kind::U16 },
            LayoutField { key: Key::Position(1), kind: Kind::Bytes(2) },
        ]
    );
    let mut source = Source::new(vec![0x01, 0x02, 0x03, 0x04]);
    assert_eq!(
        source.read_record(&layout, ByteOrder::Big),
        Ok(vec![
            Slot { key: Key::Position(0), value: Value::U16(0x0102) },
            Slot { key: Key::Position(1), value: Value::Bytes(vec![3, 4]) },
        ])
    );
    assert_eq!(Key::Label("x".to_string()).duplicate(), Key::Label("x".to_string()));
}

#[test]
fn write_as_takes_a_record_of_the_layout() {
    let mut sink = Sink::new(64);
    assert_eq!(sink.write_as(&header_layout(), &header(), ByteOrder::Big), Ok(()));
    assert_eq!(sink.bytes, HEADER_BE.to_vec());
    let mut small = Sink::new(6);
    assert_eq!(
        small.write_as(&header_layout(), &header(), ByteOrder::Big),
        Err(CodecError::SinkFull { needed: 4, room: 2 })
    );
    assert_eq!(small.bytes, vec![0x89, 0x50, 0x4E, 0x47]);
}

#[test]
fn write_as_refuses_a_record_of_another_layout() {
    let layout = header_layout();
    let mut sink = Sink::new(64);
    let mut short = header();
    short.pop();
    assert_eq!(sink.write_as(&layout, &short, ByteOrder::Little), Err(CodecError::Mismatch));
    let mut renamed = header();
    renamed[1].key = Key::Label("breadth".to_string());
    assert_eq!(sink.write_as(&layout, &renamed, ByteOrder::Little), Err(CodecError::Mismatch));
    let mut positional = header();
    positional[0].key = Key::Position(0);
    assert_eq!(sink.write_as(&layout, &positional, ByteOrder::Little), Err(CodecError::Mismatch));
    let mut retyped = header();
    retyped[3].value = Value::U16(3);
    assert_eq!(sink.write_as(&layout, &retyped, ByteOrder::Little), Err(CodecError::Mismatch));
    let mut resized = header();
    resized[0].value = Value::Bytes(vec![0x89, 0x50]);
    assert_eq!(sink.write_as(&layout, &resized, ByteOrder::Little), Err(CodecError::Mismatch));
    assert!(sink.bytes.is_empty());
    assert!(!conforms_to(&resized, &layout));
    assert!(conforms_to(&header(), &layout));
    assert!(Value::U8(1).is_of(Kind::U8));
    assert!(!Value::U8(1).is_of(Kind::U16));
    assert!(Key::Position(2).addresses(&Key::Position(2)));
    assert!(!Key::Position(2).addresses(&Key::Label("2".to_string())));
}
