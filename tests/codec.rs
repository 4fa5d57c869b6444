use ocaml_rust::model::BufferKind;
use ocaml_rust::codec::{decode, encode, DecodeError};
use ocaml_rust::value::{NativeValue, Shape, Value};

fn round_trip(shape: &Shape, v: &NativeValue) -> NativeValue {
    let e = encode(shape, v);
    decode(shape, &e).expect("decodes")
}

fn bits(x: f64) -> u64 {
    x.to_bits()
}

#[test]
fn int_is_an_immediate() {
    assert_eq!(encode(&Shape::Int, &NativeValue::Int(41)), Value::Imm(41));
    assert_eq!(encode(&Shape::Bool, &NativeValue::Bool(true)), Value::Imm(1));
    assert_eq!(encode(&Shape::Unit, &NativeValue::Unit), Value::Imm(0));
}

#[test]
fn boxed_numbers() {
    assert_eq!(encode(&Shape::Int64, &NativeValue::Int64(-7)), Value::Int64(-7));
    assert_eq!(encode(&Shape::Int32, &NativeValue::Int32(3)), Value::Int32(3));
    assert_eq!(encode(&Shape::Float, &NativeValue::Float(bits(1.5))), Value::Double(bits(1.5)));
}

#[test]
fn round_trip_empty_and_single_sequences() {
    let s = Shape::Array(Box::new(Shape::Int));
    for v in [vec![], vec![NativeValue::Int(5)]] {
        let n = NativeValue::Array(v);
        assert_eq!(round_trip(&s, &n), n);
    }
    let l = Shape::List(Box::new(Shape::Int));
    for v in [vec![], vec![NativeValue::Int(5)], vec![NativeValue::Int(1), NativeValue::Int(2)]] {
        let n = NativeValue::List(v);
        assert_eq!(round_trip(&l, &n), n);
    }
}

#[test]
fn linked_list_layout() {
    let l = Shape::List(Box::new(Shape::Int));
    let n = NativeValue::List(vec![NativeValue::Int(1), NativeValue::Int(2)]);
    let expected = Value::Block(
        0,
        vec![Value::Imm(1), Value::Block(0, vec![Value::Imm(2), Value::Imm(0)])],
    );
    assert_eq!(encode(&l, &n), expected);
}

#[test]
fn round_trip_nested_tuples() {
    let s = Shape::Tuple(vec![
        Shape::Text,
        Shape::Float,
        Shape::Tuple(vec![Shape::Int, Shape::Tuple(vec![Shape::Int64, Shape::Bool])]),
    ]);
    let n = NativeValue::Tuple(vec![
        NativeValue::Text("x".to_string()),
        NativeValue::Float(bits(2.0)),
        NativeValue::Tuple(vec![
            NativeValue::Int(1),
            NativeValue::Tuple(vec![NativeValue::Int64(9), NativeValue::Bool(false)]),
        ]),
    ]);
    assert_eq!(round_trip(&s, &n), n);
}

#[test]
fn round_trip_options_and_results() {
    let o = Shape::Option(Box::new(Shape::Text));
    for n in [NativeValue::Absent, NativeValue::Present(Box::new(NativeValue::Text(String::new())))] {
        assert_eq!(round_trip(&o, &n), n);
    }
    let r = Shape::Result(Box::new(Shape::Unit), Box::new(Shape::Text));
    for n in [
        NativeValue::Success(Box::new(NativeValue::Unit)),
        NativeValue::Failure(Box::new(NativeValue::Text(String::new()))),
    ] {
        assert_eq!(round_trip(&r, &n), n);
    }
}

#[test]
fn outcome_tags_are_fixed() {
    let r = Shape::Result(Box::new(Shape::Int), Box::new(Shape::Int));
    assert_eq!(
        encode(&r, &NativeValue::Success(Box::new(NativeValue::Int(1)))),
        Value::Block(0, vec![Value::Imm(1)])
    );
    assert_eq!(
        encode(&r, &NativeValue::Failure(Box::new(NativeValue::Int(1)))),
        Value::Block(1, vec![Value::Imm(1)])
    );
}

#[test]
fn text_round_trip_and_lossy_decode() {
    let n = NativeValue::Text("héllo".to_string());
    assert_eq!(encode(&Shape::Text, &n), Value::Bytes("héllo".as_bytes().to_vec()));
    assert_eq!(round_trip(&Shape::Text, &n), n);
    let bad = Value::Bytes(vec![b'a', 0xff, b'b']);
    assert_eq!(
        decode(&Shape::Text, &bad),
        Ok(NativeValue::Text("a\u{FFFD}b".to_string()))
    );
    let raw = NativeValue::Bytes(vec![0, 255]);
    assert_eq!(round_trip(&Shape::Bytes, &raw), raw);
}

#[test]
fn float_record_uses_the_flat_layout() {
    let s = Shape::Record(vec![Shape::Float, Shape::Float, Shape::Float, Shape::Float]);
    let n = NativeValue::Tuple(vec![
        NativeValue::Float(bits(1.0)),
        NativeValue::Float(bits(2.0)),
        NativeValue::Float(bits(3.0)),
        NativeValue::Float(bits(4.0)),
    ]);
    let e = encode(&s, &n);
    assert_eq!(e, Value::DoubleArray(vec![bits(1.0), bits(2.0), bits(3.0), bits(4.0)]));
    assert_eq!(decode(&s, &e).as_ref(), Ok(&n));
    let generic = Value::Block(
        0,
        vec![
            Value::Double(bits(1.0)),
            Value::Double(bits(2.0)),
            Value::Double(bits(3.0)),
            Value::Double(bits(4.0)),
        ],
    );
    assert_eq!(decode(&s, &generic), Ok(n));
}

#[test]
fn float_array_accepts_both_layouts() {
    let s = Shape::Array(Box::new(Shape::Float));
    let n = NativeValue::Array(vec![NativeValue::Float(bits(0.5))]);
    assert_eq!(encode(&s, &n), Value::DoubleArray(vec![bits(0.5)]));
    let generic = Value::Block(0, vec![Value::Double(bits(0.5))]);
    assert_eq!(decode(&s, &generic), Ok(n));
}

#[test]
fn mixed_record_uses_a_block() {
    let s = Shape::Record(vec![Shape::Int, Shape::Float]);
    let n = NativeValue::Tuple(vec![NativeValue::Int(3), NativeValue::Float(bits(1.0))]);
    assert_eq!(encode(&s, &n), Value::Block(0, vec![Value::Imm(3), Value::Double(bits(1.0))]));
    assert_eq!(round_trip(&s, &n), n);
}

fn interleaved() -> Shape {
    Shape::Variant(vec![
        vec![],
        vec![Shape::Int],
        vec![],
        vec![Shape::Int, Shape::Text],
        vec![],
    ])
}

#[test]
fn variant_tags_count_separately() {
    let s = interleaved();
    assert_eq!(encode(&s, &NativeValue::Variant(0, vec![])), Value::Imm(0));
    assert_eq!(encode(&s, &NativeValue::Variant(2, vec![])), Value::Imm(1));
    assert_eq!(encode(&s, &NativeValue::Variant(4, vec![])), Value::Imm(2));
    assert_eq!(
        encode(&s, &NativeValue::Variant(1, vec![NativeValue::Int(7)])),
        Value::Block(0, vec![Value::Imm(7)])
    );
    assert_eq!(
        encode(
            &s,
            &NativeValue::Variant(3, vec![NativeValue::Int(7), NativeValue::Text("a".to_string())])
        ),
        Value::Block(1, vec![Value::Imm(7), Value::Bytes(vec![b'a'])])
    );
}

#[test]
fn variant_round_trip() {
    let s = interleaved();
    for n in [
        NativeValue::Variant(0, vec![]),
        NativeValue::Variant(1, vec![NativeValue::Int(-4)]),
        NativeValue::Variant(2, vec![]),
        NativeValue::Variant(3, vec![NativeValue::Int(1), NativeValue::Text("b".to_string())]),
        NativeValue::Variant(4, vec![]),
    ] {
        assert_eq!(round_trip(&s, &n), n);
    }
}

#[test]
fn tag_mismatch_is_refused() {
    assert_eq!(decode(&Shape::Int, &Value::Block(0, vec![])), Err(DecodeError::TagMismatch));
    assert_eq!(
        decode(&Shape::Tuple(vec![Shape::Int, Shape::Int]), &Value::Block(0, vec![Value::Imm(1)])),
        Err(DecodeError::TagMismatch)
    );
    assert_eq!(
        decode(&Shape::Option(Box::new(Shape::Int)), &Value::Imm(3)),
        Err(DecodeError::TagMismatch)
    );
    assert_eq!(
        decode(&Shape::Result(Box::new(Shape::Int), Box::new(Shape::Int)), &Value::Block(2, vec![Value::Imm(0)])),
        Err(DecodeError::TagMismatch)
    );
    assert_eq!(decode(&interleaved(), &Value::Imm(3)), Err(DecodeError::TagMismatch));
    assert_eq!(decode(&interleaved(), &Value::Block(2, vec![])), Err(DecodeError::TagMismatch));
}

#[test]
fn buffers_copy_their_elements() {
    let s = Shape::Buffer(BufferKind::Float64);
    let n = NativeValue::Buffer(vec![bits(1.0), bits(-2.5)]);
    let e = encode(&s, &n);
    assert_eq!(e, Value::BigArray(BufferKind::Float64, vec![bits(1.0), bits(-2.5)]));
    assert_eq!(decode(&s, &e), Ok(n));
    let other = Value::BigArray(BufferKind::Int32, vec![1]);
    assert_eq!(decode(&s, &other), Err(DecodeError::TagMismatch));
}

#[test]
fn checked_decode_of_a_fitting_value() {
    let s = Shape::Tuple(vec![Shape::Int, Shape::Text]);
    let n = NativeValue::Tuple(vec![NativeValue::Int(-1), NativeValue::Text("t".to_string())]);
    let e = encode(&s, &n);
    assert_eq!(ocaml_rust::codec::decode_checked(&s, &e), n);
}
