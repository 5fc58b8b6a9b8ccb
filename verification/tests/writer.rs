use serde_prop::{
    to_vec, to_vec_value, CompactFormatter, Deserializer, Entry, FieldShape, Read, Serializer,
    Shape, SliceRead, StrRead, Value,
};

fn entry(key: &str, value: Value) -> Entry {
    Entry { key: Value::Text(key.as_bytes().to_vec()), value }
}

#[test]
fn to_string() {
    let mut buffer = ryu::Buffer::new();
    let float_text = buffer.format_finite(4.4_f32);
    let entries = vec![
        entry("unused_0", Value::Text(b"unused 0".to_vec())),
        entry("unused1", Value::Absent),
        entry("unused2", Value::SInt(2)),
        entry("unused3", Value::UInt(3)),
        entry("unused4", Value::Float(float_text.as_bytes().to_vec())),
        entry("unused5", Value::Variant(b"u0".to_vec())),
    ];
    let s = String::from_utf8(to_vec(&entries).unwrap()).unwrap();
    assert_eq!(s, "unused_0=unused 0\nunused1=\nunused2=2\nunused3=3\nunused4=4.4\nunused5=u0");
}

#[test]
fn encode_two_entries() {
    let entries = vec![entry("a", Value::SInt(1)), entry("b", Value::Text(b"x".to_vec()))];
    assert_eq!(to_vec(&entries).unwrap(), b"a=1\nb=x".to_vec());
}

#[test]
fn encode_empty_record() {
    let entries: Vec<Entry> = vec![];
    assert_eq!(to_vec(&entries).unwrap(), Vec::<u8>::new());
}

#[test]
fn integer_rendering() {
    let entries = vec![
        entry("neg", Value::SInt(-12345)),
        entry("min", Value::SInt(i64::MIN)),
        entry("max", Value::UInt(u64::MAX)),
        entry("zero", Value::UInt(0)),
    ];
    assert_eq!(
        to_vec(&entries).unwrap(),
        b"neg=-12345\nmin=-9223372036854775808\nmax=18446744073709551615\nzero=0".to_vec()
    );
}

#[test]
fn bool_rendering() {
    let entries = vec![entry("t", Value::Bool(true)), entry("f", Value::Bool(false))];
    assert_eq!(to_vec(&entries).unwrap(), b"t=true\nf=false".to_vec());
}

#[test]
fn scalar_document() {
    assert_eq!(to_vec_value(&Value::Bool(true)).unwrap(), b"true".to_vec());
    assert_eq!(to_vec_value(&Value::SInt(-7)).unwrap(), b"-7".to_vec());
    assert_eq!(to_vec_value(&Value::Text(b"hi".to_vec())).unwrap(), b"hi".to_vec());
    assert_eq!(to_vec_value(&Value::Unit).unwrap(), Vec::<u8>::new());
}

#[test]
fn unsupported_encode_shapes() {
    let cases: Vec<(Value, &[u8])> = vec![
        (Value::Chr('x'), b"unsupported char"),
        (Value::Bytes(b"b".to_vec()), b"unsupported bytes"),
        (Value::List, b"unsupported seq"),
        (Value::Tuple, b"unsupported tuple"),
        (Value::TupleStruct, b"unsupported tuple struct"),
        (Value::Newtype(Box::new(Value::UInt(1))), b"unsupported newtype struct"),
        (Value::NewtypeVariant, b"unsupported newtype variant"),
        (Value::TupleVariant, b"unsupported tuple variant"),
        (Value::StructVariant, b"unsupported struct variant"),
    ];
    for (value, msg) in cases {
        let entries = vec![entry("a", value)];
        let e = to_vec(&entries).unwrap_err();
        assert_eq!(e.message().as_slice(), msg);
    }
}

#[test]
fn unsupported_key_rejected() {
    let entries = vec![Entry { key: Value::Bool(true), value: Value::UInt(1) }];
    let e = to_vec(&entries).unwrap_err();
    assert_eq!(e.message().as_slice(), b"unsupported key" as &[u8]);
}

#[test]
fn enum_key_renders_as_name() {
    let entries = vec![Entry {
        key: Value::Variant(b"kind".to_vec()),
        value: Value::Text(b"v".to_vec()),
    }];
    assert_eq!(to_vec(&entries).unwrap(), b"kind=v".to_vec());
}

#[test]
fn streaming_compound_writer() {
    let ser = Serializer::with_formatter(Vec::new(), CompactFormatter);
    let mut com = ser.serialize_map();
    com.serialize_key(&Value::Text(b"a".to_vec())).unwrap();
    com.serialize_value(&Value::UInt(1)).unwrap();
    com.serialize_key(&Value::Text(b"b".to_vec())).unwrap();
    com.serialize_value(&Value::Absent).unwrap();
    let out = com.end().into_inner();
    assert_eq!(out, b"a=1\nb=".to_vec());
}

#[test]
fn round_trip_concrete() {
    let entries = vec![
        entry("flag", Value::Bool(true)),
        entry("count", Value::SInt(-3)),
        entry("size", Value::UInt(12)),
        entry("name", Value::Text(b"Ada".to_vec())),
        entry("note", Value::Present(Box::new(Value::Text(b"there".to_vec())))),
        entry("gone", Value::Absent),
        entry("kind", Value::Variant(b"u0".to_vec())),
    ];
    let doc = to_vec(&entries).unwrap();

    let fields = vec![
        FieldShape { name: b"flag".to_vec(), shape: Shape::Bool },
        FieldShape { name: b"count".to_vec(), shape: Shape::SInt },
        FieldShape { name: b"size".to_vec(), shape: Shape::UInt },
        FieldShape { name: b"name".to_vec(), shape: Shape::Text },
        FieldShape { name: b"note".to_vec(), shape: Shape::Optional(Box::new(Shape::Text)) },
        FieldShape { name: b"gone".to_vec(), shape: Shape::Optional(Box::new(Shape::Text)) },
        FieldShape {
            name: b"kind".to_vec(),
            shape: Shape::Choice(vec![serde_prop::VariantShape {
                name: b"u0".to_vec(),
                kind: serde_prop::VariantKind::Unit,
            }]),
        },
    ];
    let values = serde_prop::from_slice(&doc, &fields).unwrap();
    assert_eq!(values[0], Value::Bool(true));
    assert_eq!(values[1], Value::SInt(-3));
    assert_eq!(values[2], Value::UInt(12));
    assert_eq!(values[3], Value::Text(b"Ada".to_vec()));
    assert_eq!(values[4], Value::Present(Box::new(Value::Text(b"there".to_vec()))));
    assert_eq!(values[5], Value::Absent);
    assert_eq!(values[6], Value::Variant(b"u0".to_vec()));
}

#[test]
fn cursor_and_parser_primitives() {
    let mut cur = SliceRead::new(b"ab");
    assert_eq!(cur.peek(), Some(b'a'));
    assert_eq!(cur.next(), Some(b'a'));
    assert_eq!(cur.byte_offset(), 1);
    cur.discard();
    assert_eq!(cur.next(), None);
    assert_eq!(cur.byte_offset(), 2);

    let mut s = StrRead::new("x");
    assert_eq!(s.next(), Some(b'x'));
    assert_eq!(s.peek(), None);

    let mut de = Deserializer::from_str("# skip\n key = v\nrest=1");
    let key = de.parse_key().unwrap();
    assert_eq!(key, b"key".to_vec());
    let value = de.parse_value();
    assert_eq!(value, b"v".to_vec());
    let key2 = de.parse_key().unwrap();
    assert_eq!(key2, b"rest".to_vec());
    let value2 = de.parse_value();
    assert_eq!(value2, b"1".to_vec());
    assert!(de.parse_key().is_none());
    assert!(de.end().is_ok());
}
