use serde_prop::{from_slice, from_slice_value, FieldShape, Shape, Value, VariantKind, VariantShape};

fn field(name: &str, shape: Shape) -> FieldShape {
    FieldShape { name: name.as_bytes().to_vec(), shape }
}

fn unit_variant(name: &str) -> VariantShape {
    VariantShape { name: name.as_bytes().to_vec(), kind: VariantKind::Unit }
}

fn enum_u0_u1() -> Shape {
    Shape::Choice(vec![unit_variant("u0"), unit_variant("u1")])
}

#[test]
fn from_str() {
    let prop = "
    # test comment by '#'
    ! test comment by '!'

    # test colon
    unused_0: unused 0

    unused1=
    unused2=2
    unused3=3
    unused4=4.4
    unused5=u0
    unused6=_
    ";

    let fields = vec![
        field("unused_0", Shape::Text),
        field("unused1", Shape::Optional(Box::new(Shape::Text))),
        field("unused2", Shape::SInt),
        field("unused3", Shape::UInt),
        field("unused4", Shape::Float),
        field("unused5", enum_u0_u1()),
    ];
    let v = serde_prop::from_str(prop, &fields).unwrap();
    assert_eq!(v[0], Value::Text(b"unused 0".to_vec()));
    assert_eq!(v[1], Value::Absent);
    assert_eq!(v[2], Value::SInt(2));
    assert_eq!(v[3], Value::UInt(3));
    let Value::Float(t) = &v[4] else {
        panic!("expected a float value")
    };
    assert_eq!(String::from_utf8(t.clone()).unwrap().parse::<f32>().unwrap(), 4.4_f32);
    assert_eq!(v[5], Value::Variant(b"u0".to_vec()));
}

#[test]
fn concrete_scenario() {
    let input = "# comment\nname=Ada\nretired=\nscore=100";
    let fields = vec![
        field("name", Shape::Text),
        field("retired", Shape::Optional(Box::new(Shape::Text))),
        field("score", Shape::SInt),
    ];
    let v = serde_prop::from_str(input, &fields).unwrap();
    assert_eq!(v[0], Value::Text(b"Ada".to_vec()));
    assert_eq!(v[1], Value::Absent);
    assert_eq!(v[2], Value::SInt(100));
}

#[test]
fn separator_equivalence() {
    let fields = vec![field("key", Shape::Text)];
    let a = serde_prop::from_str("key=value", &fields).unwrap();
    let b = serde_prop::from_str("key:value", &fields).unwrap();
    assert_eq!(a, b);
    assert_eq!(a[0], Value::Text(b"value".to_vec()));
}

#[test]
fn comment_and_blank_tolerance() {
    let fields = vec![field("a", Shape::UInt), field("b", Shape::UInt)];
    let plain = serde_prop::from_str("a=1\nb=2", &fields).unwrap();
    let noisy = serde_prop::from_str("\n# one\n\na=1\n! two\n\n\nb=2", &fields).unwrap();
    assert_eq!(plain, noisy);
}

#[test]
fn absent_vs_empty() {
    let optional = vec![field("k", Shape::Optional(Box::new(Shape::Text)))];
    let v = serde_prop::from_str("k=", &optional).unwrap();
    assert_eq!(v[0], Value::Absent);

    let required = vec![field("k", Shape::Text)];
    let e = serde_prop::from_str("k=", &required).unwrap_err();
    assert_eq!(e.message().as_slice(), b"invalid length 0, expected length > 0" as &[u8]);
}

#[test]
fn missing_optional_field_is_absent() {
    let fields = vec![
        field("a", Shape::UInt),
        field("b", Shape::Optional(Box::new(Shape::UInt))),
    ];
    let v = serde_prop::from_str("a=7", &fields).unwrap();
    assert_eq!(v[0], Value::UInt(7));
    assert_eq!(v[1], Value::Absent);
}

#[test]
fn missing_required_field_fails() {
    let fields = vec![field("a", Shape::UInt)];
    let e = serde_prop::from_str("", &fields).unwrap_err();
    assert_eq!(e.message().as_slice(), b"missing field a" as &[u8]);
}

#[test]
fn duplicate_field_fails() {
    let fields = vec![field("a", Shape::UInt)];
    let e = serde_prop::from_str("a=1\na=2", &fields).unwrap_err();
    assert_eq!(e.message().as_slice(), b"duplicate field a" as &[u8]);
}

#[test]
fn unknown_keys_are_ignored() {
    let fields = vec![field("a", Shape::UInt)];
    let v = serde_prop::from_str("x=anything\na=3\ny=more", &fields).unwrap();
    assert_eq!(v[0], Value::UInt(3));
}

#[test]
fn trailing_garbage_without_separator_is_dropped() {
    // A key line lacking any separator before end of input silently ends
    // the entry iteration rather than failing.
    let fields = vec![field("name", Shape::Text)];
    let v = serde_prop::from_str("name=Ada\ngarbage", &fields).unwrap();
    assert_eq!(v[0], Value::Text(b"Ada".to_vec()));
}

#[test]
fn trailing_data_detected_for_narrow_target() {
    let shape = Shape::Optional(Box::new(Shape::Text));
    let e = from_slice_value(b"a=1", &shape).unwrap_err();
    assert_eq!(e.message().as_slice(), b"not over yet" as &[u8]);

    let ok = from_slice_value(b"", &shape).unwrap();
    assert_eq!(ok, Value::Absent);
}

#[test]
fn bool_values() {
    let fields = vec![field("t", Shape::Bool), field("f", Shape::Bool)];
    let v = serde_prop::from_str("t=true\nf=false", &fields).unwrap();
    assert_eq!(v[0], Value::Bool(true));
    assert_eq!(v[1], Value::Bool(false));

    let e = serde_prop::from_str("t=maybe\nf=false", &fields).unwrap_err();
    assert_eq!(e.message().as_slice(), b"invalid value: maybe, expected boolean" as &[u8]);
}

#[test]
fn signed_integer_values() {
    let fields = vec![field("a", Shape::SInt)];
    assert_eq!(serde_prop::from_str("a=-9223372036854775808", &fields).unwrap()[0], Value::SInt(i64::MIN));
    assert_eq!(serde_prop::from_str("a=9223372036854775807", &fields).unwrap()[0], Value::SInt(i64::MAX));
    assert_eq!(serde_prop::from_str("a=+42", &fields).unwrap()[0], Value::SInt(42));
    assert_eq!(serde_prop::from_str("a=007", &fields).unwrap()[0], Value::SInt(7));

    let e = serde_prop::from_str("a=9223372036854775808", &fields).unwrap_err();
    assert_eq!(
        e.message().as_slice(),
        b"invalid value: 9223372036854775808, expected signed integer" as &[u8]
    );
    let e = serde_prop::from_str("a=", &fields).unwrap_err();
    assert_eq!(e.message().as_slice(), b"invalid value: , expected signed integer" as &[u8]);
}

#[test]
fn unsigned_integer_values() {
    let fields = vec![field("a", Shape::UInt)];
    assert_eq!(serde_prop::from_str("a=18446744073709551615", &fields).unwrap()[0], Value::UInt(u64::MAX));
    assert_eq!(serde_prop::from_str("a=0", &fields).unwrap()[0], Value::UInt(0));
    assert_eq!(serde_prop::from_str("a=+8", &fields).unwrap()[0], Value::UInt(8));

    let e = serde_prop::from_str("a=18446744073709551616", &fields).unwrap_err();
    assert_eq!(
        e.message().as_slice(),
        b"invalid value: 18446744073709551616, expected unsigned integer" as &[u8]
    );
    let e = serde_prop::from_str("a=-1", &fields).unwrap_err();
    assert_eq!(e.message().as_slice(), b"invalid value: -1, expected unsigned integer" as &[u8]);
}

#[test]
fn float_values() {
    let fields = vec![field("a", Shape::Float)];
    assert_eq!(serde_prop::from_str("a=4.4", &fields).unwrap()[0], Value::Float(b"4.4".to_vec()));
    let e = serde_prop::from_str("a=", &fields).unwrap_err();
    assert_eq!(e.message().as_slice(), b"invalid value: , expected float" as &[u8]);
}

#[test]
fn unit_values() {
    let fields = vec![field("a", Shape::Unit)];
    assert_eq!(serde_prop::from_str("a=", &fields).unwrap()[0], Value::Unit);
    let e = serde_prop::from_str("a=x", &fields).unwrap_err();
    assert_eq!(e.message().as_slice(), b"invalid type: unit, expected unit" as &[u8]);
}

#[test]
fn enum_values() {
    let fields = vec![field("e", enum_u0_u1())];
    assert_eq!(serde_prop::from_str("e=u1", &fields).unwrap()[0], Value::Variant(b"u1".to_vec()));

    let e = serde_prop::from_str("e=u2", &fields).unwrap_err();
    assert_eq!(e.message().as_slice(), b"unknown variant u2" as &[u8]);
}

#[test]
fn payload_variant_rejected() {
    let shape = Shape::Choice(vec![
        unit_variant("plain"),
        VariantShape { name: b"wrapped".to_vec(), kind: VariantKind::Newtype },
        VariantShape { name: b"pair".to_vec(), kind: VariantKind::Tuple },
        VariantShape { name: b"record".to_vec(), kind: VariantKind::Struct },
    ]);
    let fields = vec![field("e", shape)];
    let e = serde_prop::from_str("e=wrapped", &fields).unwrap_err();
    assert_eq!(
        e.message().as_slice(),
        b"invalid type: unit variant, expected newtype variant" as &[u8]
    );
    let e = serde_prop::from_str("e=pair", &fields).unwrap_err();
    assert_eq!(
        e.message().as_slice(),
        b"invalid type: unit variant, expected tuple variant" as &[u8]
    );
    let e = serde_prop::from_str("e=record", &fields).unwrap_err();
    assert_eq!(
        e.message().as_slice(),
        b"invalid type: unit variant, expected struct variant" as &[u8]
    );
}

#[test]
fn unsupported_decode_shapes() {
    let cases: Vec<(Shape, &[u8])> = vec![
        (Shape::Chr, b"unsupported char"),
        (Shape::Bytes, b"unsupported bytes"),
        (Shape::List, b"unsupported seq"),
        (Shape::Tuple, b"unsupported tuple"),
        (Shape::TupleStruct, b"unsupported tuple struct"),
        (Shape::Newtype, b"unsupported newtype struct"),
    ];
    for (shape, msg) in cases {
        let fields = vec![field("a", shape)];
        let e = serde_prop::from_str("a=x", &fields).unwrap_err();
        assert_eq!(e.message().as_slice(), msg);
    }
}

#[test]
fn option_wraps_inner_value() {
    let fields = vec![field("a", Shape::Optional(Box::new(Shape::UInt)))];
    let v = serde_prop::from_str("a=5", &fields).unwrap();
    assert_eq!(v[0], Value::Present(Box::new(Value::UInt(5))));

    let e = serde_prop::from_str("a=x", &fields).unwrap_err();
    assert_eq!(e.message().as_slice(), b"invalid value: x, expected unsigned integer" as &[u8]);
}

#[test]
fn padding_space_is_stripped_once() {
    let fields = vec![field("a", Shape::Text)];
    assert_eq!(serde_prop::from_str("a= x", &fields).unwrap()[0], Value::Text(b"x".to_vec()));
    assert_eq!(serde_prop::from_str("a=  x", &fields).unwrap()[0], Value::Text(b" x".to_vec()));
}

#[test]
fn whitespace_inside_keys_is_skipped() {
    // Every key byte is fetched through the whitespace-and-comment step,
    // so whitespace between key bytes vanishes.
    let fields = vec![field("ab", Shape::Text)];
    assert_eq!(serde_prop::from_str("a b=c", &fields).unwrap()[0], Value::Text(b"c".to_vec()));
}

#[test]
fn tab_and_carriage_return_terminate_lines() {
    let fields = vec![field("a", Shape::UInt), field("b", Shape::UInt)];
    let v = serde_prop::from_str("a=1\tb=2", &fields).unwrap();
    assert_eq!(v, vec![Value::UInt(1), Value::UInt(2)]);
    let v = serde_prop::from_str("a=1\r\nb=2", &fields).unwrap();
    assert_eq!(v, vec![Value::UInt(1), Value::UInt(2)]);
}

#[test]
fn comment_at_end_of_input() {
    let fields = vec![field("a", Shape::UInt)];
    let v = serde_prop::from_str("a=1\n# trailing comment", &fields).unwrap();
    assert_eq!(v[0], Value::UInt(1));
}

#[test]
fn invalid_utf8_string_value_fails() {
    let fields = vec![field("a", Shape::Text)];
    let e = from_slice(b"a=\xffz", &fields).unwrap_err();
    assert_eq!(e.message().as_slice(), b"invalid length 0, expected length > 0" as &[u8]);

    let v = from_slice(b"a=ok", &fields).unwrap();
    assert_eq!(v[0], Value::Text(b"ok".to_vec()));
}
