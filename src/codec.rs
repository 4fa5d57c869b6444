use vstd::prelude::*;
use crate::model::{
    ShapeM, ValueM, EncodedM, well_typed, enc, enc_fields, enc_all, enc_list, dec, dec_fields,
    dec_all, all_float, lemma_variant_index, float_bits, floats, const_index, block_index, const_variant, block_variant,
    text_from_bytes,
};
use crate::value::{
    Shape, NativeValue, Value, shape_m, shapes_m, variants_m, native_m, natives_m, value_m,
    values_m, lemma_shapes_m, lemma_variants_m, lemma_natives_m, lemma_values_m,
};

verus! {

broadcast use vstd::std_specs::vec::group_vec_axioms;

/// A host value whose tag or field count disagrees with the expected shape.
#[derive(Debug, PartialEq, Eq, Structural)]
pub enum DecodeError {
    TagMismatch,
}

fn is_float(s: &Shape) -> (r: bool)
    ensures
        r == (shape_m(*s) == ShapeM::Float),
{
    match s {
        Shape::Float => true,
        _ => false,
    }
}

fn is_all_float(ss: &Vec<Shape>) -> (r: bool)
    ensures
        r == all_float(shapes_m(ss@)),
{
    proof {
        lemma_shapes_m(ss@);
    }
    let mut i: usize = 0;
    while i < ss.len()
        invariant
            i <= ss.len(),
            shapes_m(ss@).len() == ss.len(),
            forall|j: int| 0 <= j < ss.len() ==> #[trigger] shapes_m(ss@)[j] == shape_m(ss@[j]),
            forall|j: int| 0 <= j < i ==> shapes_m(ss@)[j] == ShapeM::Float,
        decreases ss.len() - i,
    {
        if !is_float(&ss[i]) {
            assert(shapes_m(ss@)[i as int] != ShapeM::Float);
            return false;
        }
        i = i + 1;
    }
    true
}

/// The numbers of payload-free variants and of variants with a payload among
/// the first `i`.
fn variant_indices(vars: &Vec<Vec<Shape>>, i: usize) -> (r: (usize, usize))
    requires
        i <= vars.len(),
    ensures
        r.0 == const_index(variants_m(vars@), i as int),
        r.1 == block_index(variants_m(vars@), i as int),
{
    proof {
        lemma_variants_m(vars@);
    }
    let ghost vm = variants_m(vars@);
    let mut c: usize = 0;
    let mut b: usize = 0;
    let mut j: usize = 0;
    while j < i
        invariant
            i <= vars.len(),
            j <= i,
            vm == variants_m(vars@),
            vm.len() == vars.len(),
            forall|k: int| 0 <= k < vars.len() ==> #[trigger] vm[k] == shapes_m(vars@[k]@),
            c == const_index(vm, j as int),
            b == block_index(vm, j as int),
            c + b == j,
        decreases i - j,
    {
        proof {
            lemma_shapes_m(vars@[j as int]@);
        }
        if vars[j].len() == 0 {
            c = c + 1;
        } else {
            b = b + 1;
        }
        j = j + 1;
    }
    (c, b)
}

fn float_bits_of(vs: &Vec<NativeValue>) -> (r: Vec<u64>)
    requires
        forall|i: int| 0 <= i < vs.len() ==> #[trigger] natives_m(vs@)[i] is Float,
    ensures
        r@ == float_bits(natives_m(vs@)),
{
    proof {
        lemma_natives_m(vs@);
    }
    let mut r: Vec<u64> = Vec::new();
    let mut i: usize = 0;
    while i < vs.len()
        invariant
            i <= vs.len(),
            natives_m(vs@).len() == vs.len(),
            forall|j: int| 0 <= j < vs.len() ==> #[trigger] natives_m(vs@)[j] == native_m(vs@[j]),
            forall|j: int| 0 <= j < vs.len() ==> #[trigger] natives_m(vs@)[j] is Float,
            r.len() == i,
            forall|j: int| 0 <= j < i ==> r@[j] == natives_m(vs@)[j]->Float_0,
        decreases vs.len() - i,
    {
        assert(natives_m(vs@)[i as int] is Float);
        match &vs[i] {
            NativeValue::Float(x) => r.push(*x),
            _ => {
                r.push(0);
            },
        }
        i = i + 1;
    }
    assert(r@ =~= float_bits(natives_m(vs@)));
    r
}

fn floats_of(ds: &Vec<u64>) -> (r: Vec<NativeValue>)
    ensures
        natives_m(r@) == floats(ds@),
{
    let mut r: Vec<NativeValue> = Vec::new();
    let mut i: usize = 0;
    while i < ds.len()
        invariant
            i <= ds.len(),
            natives_m(r@) == floats(ds@.subrange(0, i as int)),
        decreases ds.len() - i,
    {
        let ghost before = r@;
        let x = ds[i];
        r.push(NativeValue::Float(x));
        assert(r@.drop_last() =~= before);
        assert(r@.last() == NativeValue::Float(x));
        assert(native_m(NativeValue::Float(x)) == ValueM::Float(x));
        assert(natives_m(r@) == natives_m(before).push(ValueM::Float(ds@[i as int])));
        assert(floats(ds@.subrange(0, i + 1)) =~= floats(ds@.subrange(0, i as int)).push(
            ValueM::Float(ds@[i as int]),
        ));
        i = i + 1;
    }
    assert(ds@.subrange(0, ds.len() as int) =~= ds@);
    r
}

/// The host representation of a native value: immediates for integers,
/// booleans and payload-free variants; blocks for the rest, with a flat float
/// layout for float arrays and all-float records.
pub fn encode(shape: &Shape, v: &NativeValue) -> (r: Value)
    requires
        well_typed(shape_m(*shape), native_m(*v)),
    ensures
        value_m(r) == enc(shape_m(*shape), native_m(*v)),
    decreases v,
{
    match v {
        NativeValue::Unit => Value::Imm(0),
        NativeValue::Int(n) => Value::Imm(*n),
        NativeValue::Bool(b) => Value::Imm(
            if *b {
                1
            } else {
                0
            },
        ),
        NativeValue::Int32(x) => Value::Int32(*x),
        NativeValue::Int64(x) => Value::Int64(*x),
        NativeValue::Float(x) => Value::Double(*x),
        NativeValue::Bytes(b) => Value::Bytes(b.clone()),
        NativeValue::Text(t) => Value::Bytes(vstd::slice::slice_to_vec(t.as_str().as_bytes())),
        NativeValue::Tuple(vs) => {
            proof {
                lemma_natives_m(vs@);
            }
            match shape {
                Shape::Record(ss) => {
                    proof {
                        lemma_shapes_m(ss@);
                    }
                    if is_all_float(ss) {
                        assert forall|i: int| 0 <= i < vs.len() implies #[trigger] natives_m(
                            vs@,
                        )[i] is Float by {
                            assert(well_typed(shapes_m(ss@)[i], natives_m(vs@)[i]));
                        }
                        Value::DoubleArray(float_bits_of(vs))
                    } else {
                        assert forall|i: int| 0 <= i < vs.len() implies well_typed(
                            shape_m(ss@[i]),
                            native_m(#[trigger] vs@[i]),
                        ) by {
                            assert(well_typed(shapes_m(ss@)[i], natives_m(vs@)[i]));
                        }
                        Value::Block(0, encode_fields(ss, vs))
                    }
                },
                Shape::Tuple(ss) => {
                    proof {
                        lemma_shapes_m(ss@);
                    }
                    assert forall|i: int| 0 <= i < vs.len() implies well_typed(
                        shape_m(ss@[i]),
                        native_m(#[trigger] vs@[i]),
                    ) by {
                        assert(well_typed(shapes_m(ss@)[i], natives_m(vs@)[i]));
                    }
                    Value::Block(0, encode_fields(ss, vs))
                },
                _ => Value::Imm(0),
            }
        },
        NativeValue::Array(vs) => {
            proof {
                lemma_natives_m(vs@);
            }
            match shape {
                Shape::Array(el) => {
                    if is_float(el) {
                        assert forall|i: int| 0 <= i < vs.len() implies #[trigger] natives_m(
                            vs@,
                        )[i] is Float by {
                            assert(well_typed(shape_m(**el), natives_m(vs@)[i]));
                        }
                        Value::DoubleArray(float_bits_of(vs))
                    } else {
                        assert forall|i: int| 0 <= i < vs.len() implies well_typed(
                            shape_m(**el),
                            native_m(#[trigger] vs@[i]),
                        ) by {
                            assert(well_typed(shape_m(**el), natives_m(vs@)[i]));
                        }
                        Value::Block(0, encode_all(el, vs))
                    }
                },
                _ => Value::Imm(0),
            }
        },
        NativeValue::List(vs) => {
            proof {
                lemma_natives_m(vs@);
            }
            match shape {
                Shape::List(el) => {
                    assert forall|i: int| 0 <= i < vs.len() implies well_typed(
                        shape_m(**el),
                        native_m(#[trigger] vs@[i]),
                    ) by {
                        assert(well_typed(shape_m(**el), natives_m(vs@)[i]));
                    }
                    encode_list(el, vs)
                },
                _ => Value::Imm(0),
            }
        },
        NativeValue::Absent => Value::Imm(0),
        NativeValue::Present(x) => match shape {
            Shape::Option(el) => {
                let cell = vec![encode(el, x)];
                proof {
                    lemma_values_m(cell@);
                    assert(values_m(cell@) =~= seq![value_m(cell@[0])]);
                }
                Value::Block(0, cell)
            },
            _ => Value::Imm(0),
        },
        NativeValue::Success(x) => match shape {
            Shape::Result(a, _) => {
                let cell = vec![encode(a, x)];
                proof {
                    lemma_values_m(cell@);
                    assert(values_m(cell@) =~= seq![value_m(cell@[0])]);
                }
                Value::Block(0, cell)
            },
            _ => Value::Imm(0),
        },
        NativeValue::Failure(x) => match shape {
            Shape::Result(_, b) => {
                let cell = vec![encode(b, x)];
                proof {
                    lemma_values_m(cell@);
                    assert(values_m(cell@) =~= seq![value_m(cell@[0])]);
                }
                Value::Block(1, cell)
            },
            _ => Value::Imm(0),
        },
        NativeValue::Buffer(d) => match shape {
            Shape::Buffer(k) => Value::BigArray(*k, d.clone()),
            _ => Value::Imm(0),
        },
        NativeValue::Variant(i, fs) => match shape {
            Shape::Variant(vars) => {
                proof {
                    lemma_variants_m(vars@);
                    lemma_shapes_m(vars@[*i as int]@);
                    lemma_natives_m(fs@);
                    crate::model::lemma_variant_tags(variants_m(vars@), native_m(*v));
                    crate::model::lemma_index_sum(variants_m(vars@), *i as int);
                }
                let (c, b) = variant_indices(vars, *i);
                if vars[*i].len() == 0 {
                    assert(c <= 246);
                    Value::Imm(c as i64)
                } else {
                    assert forall|k: int| 0 <= k < fs.len() implies well_typed(
                        shape_m(vars@[*i as int]@[k]),
                        native_m(#[trigger] fs@[k]),
                    ) by {
                        assert(well_typed(variants_m(vars@)[*i as int][k], natives_m(fs@)[k]));
                    }
                    Value::Block(b as u8, encode_fields(&vars[*i], fs))
                }
            },
            _ => Value::Imm(0),
        },
    }
}

fn encode_fields(ss: &Vec<Shape>, vs: &Vec<NativeValue>) -> (r: Vec<Value>)
    requires
        vs.len() <= ss.len(),
        forall|i: int|
            0 <= i < vs.len() ==> well_typed(shape_m(ss@[i]), native_m(#[trigger] vs@[i])),
    ensures
        values_m(r@) == enc_fields(shapes_m(ss@), natives_m(vs@)),
    decreases vs,
{
    proof {
        lemma_shapes_m(ss@);
        lemma_natives_m(vs@);
    }
    let ghost sm = shapes_m(ss@);
    let ghost nm = natives_m(vs@);
    let mut r: Vec<Value> = Vec::new();
    let mut i: usize = 0;
    while i < vs.len()
        invariant
            i <= vs.len(),
            vs.len() <= ss.len(),
            sm == shapes_m(ss@),
            nm == natives_m(vs@),
            sm.len() == ss.len(),
            nm.len() == vs.len(),
            forall|j: int| 0 <= j < ss.len() ==> #[trigger] sm[j] == shape_m(ss@[j]),
            forall|j: int| 0 <= j < vs.len() ==> #[trigger] nm[j] == native_m(vs@[j]),
            forall|j: int|
                0 <= j < vs.len() ==> well_typed(shape_m(ss@[j]), native_m(#[trigger] vs@[j])),
            values_m(r@) == enc_fields(sm, nm.subrange(0, i as int)),
        decreases vs.len() - i,
    {
        proof {
            assert(decreases_to!(*vs => vs[i as int]));
        }
        let e = encode(&ss[i], &vs[i]);
        let ghost before = r@;
        r.push(e);
        assert(r@.drop_last() =~= before);
        assert(nm.subrange(0, i + 1).drop_last() =~= nm.subrange(0, i as int));
        i = i + 1;
    }
    assert(nm.subrange(0, vs.len() as int) =~= nm);
    r
}

fn encode_all(s: &Shape, vs: &Vec<NativeValue>) -> (r: Vec<Value>)
    requires
        forall|i: int| 0 <= i < vs.len() ==> well_typed(shape_m(*s), native_m(#[trigger] vs@[i])),
    ensures
        values_m(r@) == enc_all(shape_m(*s), natives_m(vs@)),
    decreases vs,
{
    proof {
        lemma_natives_m(vs@);
    }
    let ghost nm = natives_m(vs@);
    let mut r: Vec<Value> = Vec::new();
    let mut i: usize = 0;
    while i < vs.len()
        invariant
            i <= vs.len(),
            nm == natives_m(vs@),
            nm.len() == vs.len(),
            forall|j: int| 0 <= j < vs.len() ==> #[trigger] nm[j] == native_m(vs@[j]),
            forall|j: int|
                0 <= j < vs.len() ==> well_typed(shape_m(*s), native_m(#[trigger] vs@[j])),
            values_m(r@) == enc_all(shape_m(*s), nm.subrange(0, i as int)),
        decreases vs.len() - i,
    {
        proof {
            assert(decreases_to!(*vs => vs[i as int]));
        }
        let e = encode(s, &vs[i]);
        let ghost before = r@;
        r.push(e);
        assert(r@.drop_last() =~= before);
        assert(nm.subrange(0, i + 1).drop_last() =~= nm.subrange(0, i as int));
        i = i + 1;
    }
    assert(nm.subrange(0, vs.len() as int) =~= nm);
    r
}

fn encode_list(s: &Shape, vs: &Vec<NativeValue>) -> (r: Value)
    requires
        forall|i: int| 0 <= i < vs.len() ==> well_typed(shape_m(*s), native_m(#[trigger] vs@[i])),
    ensures
        value_m(r) == enc_list(shape_m(*s), natives_m(vs@)),
    decreases vs,
{
    proof {
        lemma_natives_m(vs@);
    }
    let ghost nm = natives_m(vs@);
    let mut acc = Value::Imm(0);
    let mut i: usize = vs.len();
    assert(nm.subrange(vs.len() as int, vs.len() as int).len() == 0);
    while i > 0
        invariant
            i <= vs.len(),
            nm == natives_m(vs@),
            nm.len() == vs.len(),
            forall|j: int| 0 <= j < vs.len() ==> #[trigger] nm[j] == native_m(vs@[j]),
            forall|j: int|
                0 <= j < vs.len() ==> well_typed(shape_m(*s), native_m(#[trigger] vs@[j])),
            value_m(acc) == enc_list(shape_m(*s), nm.subrange(i as int, vs.len() as int)),
        decreases i,
    {
        proof {
            assert(decreases_to!(*vs => vs[i - 1]));
        }
        let h = encode(s, &vs[i - 1]);
        let ghost tail = nm.subrange(i as int, vs.len() as int);
        let ghost whole = nm.subrange(i - 1, vs.len() as int);
        assert(whole.drop_first() =~= tail);
        assert(whole[0] == nm[i - 1]);
        let cell = vec![h, acc];
        proof {
            lemma_values_m(cell@);
            assert(values_m(cell@) =~= seq![value_m(cell@[0]), value_m(cell@[1])]);
        }
        acc = Value::Block(0, cell);
        i = i - 1;
    }
    assert(nm.subrange(0, vs.len() as int) =~= nm);
    acc
}

proof fn lemma_dec_fields_prefix(ss: Seq<ShapeM>, fs: Seq<EncodedM>, k: int)
    requires
        0 <= k <= fs.len(),
        dec_fields(ss, fs.subrange(0, k)) is None,
    ensures
        dec_fields(ss, fs) is None,
    decreases fs.len() - k,
{
    if k < fs.len() {
        assert(fs.subrange(0, k + 1).drop_last() =~= fs.subrange(0, k));
        lemma_dec_fields_prefix(ss, fs, k + 1);
    } else {
        assert(fs.subrange(0, k) =~= fs);
    }
}

proof fn lemma_dec_all_prefix(s: ShapeM, fs: Seq<EncodedM>, k: int)
    requires
        0 <= k <= fs.len(),
        dec_all(s, fs.subrange(0, k)) is None,
    ensures
        dec_all(s, fs) is None,
    decreases fs.len() - k,
{
    if k < fs.len() {
        assert(fs.subrange(0, k + 1).drop_last() =~= fs.subrange(0, k));
        lemma_dec_all_prefix(s, fs, k + 1);
    } else {
        assert(fs.subrange(0, k) =~= fs);
    }
}

/// The declaration index of the payload-free variant numbered `n`.
fn find_const_variant(vars: &Vec<Vec<Shape>>, n: i64) -> (r: Option<usize>)
    ensures
        match r {
            Some(i) => const_variant(variants_m(vars@), n as int) == Some(i as nat) && i
                < vars.len(),
            None => const_variant(variants_m(vars@), n as int) is None,
        },
{
    proof {
        lemma_variants_m(vars@);
    }
    let ghost vm = variants_m(vars@);
    let mut c: usize = 0;
    let mut j: usize = 0;
    while j < vars.len()
        invariant
            j <= vars.len(),
            vm == variants_m(vars@),
            vm.len() == vars.len(),
            forall|k: int| 0 <= k < vars.len() ==> #[trigger] vm[k] == shapes_m(vars@[k]@),
            c == const_index(vm, j as int),
            c <= j,
            forall|k: int|
                0 <= k < j && vm[k].len() == 0 ==> #[trigger] const_index(vm, k) != n as int,
        decreases vars.len() - j,
    {
        proof {
            lemma_shapes_m(vars@[j as int]@);
        }
        if vars[j].len() == 0 {
            if n >= 0 && c as u64 == n as u64 {
                proof {
                    lemma_variant_index(vm, j as int);
                }
                return Some(j);
            }
            c = c + 1;
        }
        j = j + 1;
    }
    assert(!exists|i: int| 0 <= i < vm.len() && vm[i].len() == 0 && const_index(vm, i) == n);
    None
}

/// The declaration index of the variant with a payload numbered `t`.
fn find_block_variant(vars: &Vec<Vec<Shape>>, t: u8) -> (r: Option<usize>)
    ensures
        match r {
            Some(i) => block_variant(variants_m(vars@), t as int) == Some(i as nat) && i
                < vars.len(),
            None => block_variant(variants_m(vars@), t as int) is None,
        },
{
    proof {
        lemma_variants_m(vars@);
    }
    let ghost vm = variants_m(vars@);
    let mut b: usize = 0;
    let mut j: usize = 0;
    while j < vars.len()
        invariant
            j <= vars.len(),
            vm == variants_m(vars@),
            vm.len() == vars.len(),
            forall|k: int| 0 <= k < vars.len() ==> #[trigger] vm[k] == shapes_m(vars@[k]@),
            b == block_index(vm, j as int),
            b <= j,
            forall|k: int|
                0 <= k < j && vm[k].len() != 0 ==> #[trigger] block_index(vm, k) != t as int,
        decreases vars.len() - j,
    {
        proof {
            lemma_shapes_m(vars@[j as int]@);
        }
        if vars[j].len() != 0 {
            if b == t as usize {
                proof {
                    lemma_variant_index(vm, j as int);
                }
                return Some(j);
            }
            b = b + 1;
        }
        j = j + 1;
    }
    assert(!exists|i: int| 0 <= i < vm.len() && vm[i].len() != 0 && block_index(vm, i) == t);
    None
}

/// Reads a host value back as a native value of the given shape. A host value
/// whose tags or field counts do not fit the shape is refused.
pub fn decode(shape: &Shape, e: &Value) -> (r: Result<NativeValue, DecodeError>)
    ensures
        match r {
            Ok(v) => dec(shape_m(*shape), value_m(*e)) == Some(native_m(v)),
            Err(_) => dec(shape_m(*shape), value_m(*e)) is None,
        },
    decreases e,
{
    match shape {
        Shape::Unit => match e {
            Value::Imm(_) => Ok(NativeValue::Unit),
            _ => Err(DecodeError::TagMismatch),
        },
        Shape::Int => match e {
            Value::Imm(n) => Ok(NativeValue::Int(*n)),
            _ => Err(DecodeError::TagMismatch),
        },
        Shape::Bool => match e {
            Value::Imm(n) => Ok(NativeValue::Bool(*n != 0)),
            _ => Err(DecodeError::TagMismatch),
        },
        Shape::Int32 => match e {
            Value::Int32(x) => Ok(NativeValue::Int32(*x)),
            _ => Err(DecodeError::TagMismatch),
        },
        Shape::Int64 => match e {
            Value::Int64(x) => Ok(NativeValue::Int64(*x)),
            _ => Err(DecodeError::TagMismatch),
        },
        Shape::Float => match e {
            Value::Double(x) => Ok(NativeValue::Float(*x)),
            _ => Err(DecodeError::TagMismatch),
        },
        Shape::Bytes => match e {
            Value::Bytes(b) => Ok(NativeValue::Bytes(b.clone())),
            _ => Err(DecodeError::TagMismatch),
        },
        Shape::Text => match e {
            Value::Bytes(b) => Ok(NativeValue::Text(text_from_bytes(b.as_slice()))),
            _ => Err(DecodeError::TagMismatch),
        },
        Shape::Tuple(ss) => {
            proof {
                lemma_shapes_m(ss@);
            }
            match e {
                Value::Block(tag, fs) => {
                    proof {
                        lemma_values_m(fs@);
                    }
                    if *tag == 0 && fs.len() == ss.len() {
                        match decode_fields(ss, fs) {
                            Some(vs) => Ok(NativeValue::Tuple(vs)),
                            None => Err(DecodeError::TagMismatch),
                        }
                    } else {
                        Err(DecodeError::TagMismatch)
                    }
                },
                _ => Err(DecodeError::TagMismatch),
            }
        },
        Shape::Record(ss) => {
            proof {
                lemma_shapes_m(ss@);
            }
            match e {
                Value::DoubleArray(ds) => {
                    if is_all_float(ss) && ds.len() == ss.len() {
                        Ok(NativeValue::Tuple(floats_of(ds)))
                    } else {
                        Err(DecodeError::TagMismatch)
                    }
                },
                Value::Block(tag, fs) => {
                    proof {
                        lemma_values_m(fs@);
                    }
                    if *tag == 0 && fs.len() == ss.len() {
                        match decode_fields(ss, fs) {
                            Some(vs) => Ok(NativeValue::Tuple(vs)),
                            None => Err(DecodeError::TagMismatch),
                        }
                    } else {
                        Err(DecodeError::TagMismatch)
                    }
                },
                _ => Err(DecodeError::TagMismatch),
            }
        },
        Shape::Array(el) => match e {
            Value::DoubleArray(ds) => {
                if is_float(el) {
                    Ok(NativeValue::Array(floats_of(ds)))
                } else {
                    Err(DecodeError::TagMismatch)
                }
            },
            Value::Block(tag, fs) => {
                if *tag == 0 {
                    match decode_all(el, fs) {
                        Some(vs) => Ok(NativeValue::Array(vs)),
                        None => Err(DecodeError::TagMismatch),
                    }
                } else {
                    Err(DecodeError::TagMismatch)
                }
            },
            _ => Err(DecodeError::TagMismatch),
        },
        Shape::List(el) => match e {
            Value::Imm(n) => {
                if *n == 0 {
                    let empty: Vec<NativeValue> = Vec::new();
                    assert(natives_m(empty@) =~= Seq::<ValueM>::empty());
                    Ok(NativeValue::List(empty))
                } else {
                    Err(DecodeError::TagMismatch)
                }
            },
            Value::Block(tag, fs) => {
                proof {
                    lemma_values_m(fs@);
                }
                if *tag == 0 && fs.len() == 2 {
                    proof {
                        assert(decreases_to!(*fs => fs[0]));
                        assert(decreases_to!(*fs => fs[1]));
                    }
                    let h = match decode(el, &fs[0]) {
                        Ok(h) => h,
                        Err(err) => {
                            return Err(err);
                        },
                    };
                    let t = match decode(shape, &fs[1]) {
                        Ok(NativeValue::List(t)) => t,
                        _ => {
                            return Err(DecodeError::TagMismatch);
                        },
                    };
                    let mut out: Vec<NativeValue> = Vec::new();
                    out.push(h);
                    let mut t = t;
                    let ghost tm = natives_m(t@);
                    let ghost head = native_m(out@[0]);
                    proof {
                        lemma_natives_m(t@);
                    }
                    let ghost t0 = t@;
                    out.append(&mut t);
                    assert(out@ =~= seq![out@[0]] + t0);
                    proof {
                        lemma_natives_m(out@);
                        assert(natives_m(out@) =~= seq![head] + tm);
                    }
                    Ok(NativeValue::List(out))
                } else {
                    Err(DecodeError::TagMismatch)
                }
            },
            _ => Err(DecodeError::TagMismatch),
        },
        Shape::Option(el) => match e {
            Value::Imm(n) => {
                if *n == 0 {
                    Ok(NativeValue::Absent)
                } else {
                    Err(DecodeError::TagMismatch)
                }
            },
            Value::Block(tag, fs) => {
                proof {
                    lemma_values_m(fs@);
                }
                if *tag == 0 && fs.len() == 1 {
                    proof {
                        assert(decreases_to!(*fs => fs[0]));
                    }
                    match decode(el, &fs[0]) {
                        Ok(x) => Ok(NativeValue::Present(Box::new(x))),
                        Err(err) => Err(err),
                    }
                } else {
                    Err(DecodeError::TagMismatch)
                }
            },
            _ => Err(DecodeError::TagMismatch),
        },
        Shape::Result(a, b) => match e {
            Value::Block(tag, fs) => {
                proof {
                    lemma_values_m(fs@);
                }
                if *tag == 0 && fs.len() == 1 {
                    proof {
                        assert(decreases_to!(*fs => fs[0]));
                    }
                    match decode(a, &fs[0]) {
                        Ok(x) => Ok(NativeValue::Success(Box::new(x))),
                        Err(err) => Err(err),
                    }
                } else if *tag == 1 && fs.len() == 1 {
                    proof {
                        assert(decreases_to!(*fs => fs[0]));
                    }
                    match decode(b, &fs[0]) {
                        Ok(x) => Ok(NativeValue::Failure(Box::new(x))),
                        Err(err) => Err(err),
                    }
                } else {
                    Err(DecodeError::TagMismatch)
                }
            },
            _ => Err(DecodeError::TagMismatch),
        },
        Shape::Buffer(k) => match e {
            Value::BigArray(k2, d) => {
                if *k2 == *k {
                    Ok(NativeValue::Buffer(d.clone()))
                } else {
                    Err(DecodeError::TagMismatch)
                }
            },
            _ => Err(DecodeError::TagMismatch),
        },
        Shape::Variant(vars) => {
            proof {
                lemma_variants_m(vars@);
            }
            match e {
                Value::Imm(n) => match find_const_variant(vars, *n) {
                    Some(i) => {
                        let empty: Vec<NativeValue> = Vec::new();
                        assert(natives_m(empty@) =~= Seq::<ValueM>::empty());
                        Ok(NativeValue::Variant(i, empty))
                    },
                    None => Err(DecodeError::TagMismatch),
                },
                Value::Block(tag, fs) => {
                    proof {
                        lemma_values_m(fs@);
                    }
                    match find_block_variant(vars, *tag) {
                        Some(i) => {
                            proof {
                                lemma_shapes_m(vars@[i as int]@);
                            }
                            if fs.len() == vars[i].len() {
                                match decode_fields(&vars[i], fs) {
                                    Some(vs) => Ok(NativeValue::Variant(i, vs)),
                                    None => Err(DecodeError::TagMismatch),
                                }
                            } else {
                                Err(DecodeError::TagMismatch)
                            }
                        },
                        None => Err(DecodeError::TagMismatch),
                    }
                },
                _ => Err(DecodeError::TagMismatch),
            }
        },
    }
}

fn decode_fields(ss: &Vec<Shape>, fs: &Vec<Value>) -> (r: Option<Vec<NativeValue>>)
    requires
        fs.len() <= ss.len(),
    ensures
        match r {
            Some(vs) => dec_fields(shapes_m(ss@), values_m(fs@)) == Some(natives_m(vs@)),
            None => dec_fields(shapes_m(ss@), values_m(fs@)) is None,
        },
    decreases fs,
{
    proof {
        lemma_shapes_m(ss@);
        lemma_values_m(fs@);
    }
    let ghost sm = shapes_m(ss@);
    let ghost fm = values_m(fs@);
    let mut r: Vec<NativeValue> = Vec::new();
    let mut i: usize = 0;
    assert(fm.subrange(0, 0).len() == 0);
    while i < fs.len()
        invariant
            i <= fs.len(),
            fs.len() <= ss.len(),
            sm == shapes_m(ss@),
            fm == values_m(fs@),
            sm.len() == ss.len(),
            fm.len() == fs.len(),
            forall|j: int| 0 <= j < ss.len() ==> #[trigger] sm[j] == shape_m(ss@[j]),
            forall|j: int| 0 <= j < fs.len() ==> #[trigger] fm[j] == value_m(fs@[j]),
            dec_fields(sm, fm.subrange(0, i as int)) == Some(natives_m(r@)),
        decreases fs.len() - i,
    {
        proof {
            assert(decreases_to!(*fs => fs[i as int]));
        }
        assert(fm.subrange(0, i + 1).drop_last() =~= fm.subrange(0, i as int));
        match decode(&ss[i], &fs[i]) {
            Ok(x) => {
                let ghost before = r@;
                r.push(x);
                assert(r@.drop_last() =~= before);
            },
            Err(_) => {
                proof {
                    lemma_dec_fields_prefix(sm, fm, i + 1);
                }
                return None;
            },
        }
        i = i + 1;
    }
    assert(fm.subrange(0, fs.len() as int) =~= fm);
    Some(r)
}

fn decode_all(s: &Shape, fs: &Vec<Value>) -> (r: Option<Vec<NativeValue>>)
    ensures
        match r {
            Some(vs) => dec_all(shape_m(*s), values_m(fs@)) == Some(natives_m(vs@)),
            None => dec_all(shape_m(*s), values_m(fs@)) is None,
        },
    decreases fs,
{
    proof {
        lemma_values_m(fs@);
    }
    let ghost fm = values_m(fs@);
    let mut r: Vec<NativeValue> = Vec::new();
    let mut i: usize = 0;
    assert(fm.subrange(0, 0).len() == 0);
    while i < fs.len()
        invariant
            i <= fs.len(),
            fm == values_m(fs@),
            fm.len() == fs.len(),
            forall|j: int| 0 <= j < fs.len() ==> #[trigger] fm[j] == value_m(fs@[j]),
            dec_all(shape_m(*s), fm.subrange(0, i as int)) == Some(natives_m(r@)),
        decreases fs.len() - i,
    {
        proof {
            assert(decreases_to!(*fs => fs[i as int]));
        }
        assert(fm.subrange(0, i + 1).drop_last() =~= fm.subrange(0, i as int));
        match decode(s, &fs[i]) {
            Ok(x) => {
                let ghost before = r@;
                r.push(x);
                assert(r@.drop_last() =~= before);
            },
            Err(_) => {
                proof {
                    lemma_dec_all_prefix(shape_m(*s), fm, i + 1);
                }
                return None;
            },
        }
        i = i + 1;
    }
    assert(fm.subrange(0, fs.len() as int) =~= fm);
    Some(r)
}

/// Reads back a host value already known to fit the shape, as glue code does
/// once the shape check has been made: values that do not fit are left out by
/// the precondition.
pub fn decode_checked(shape: &Shape, e: &Value) -> (r: NativeValue)
    requires
        dec(shape_m(*shape), value_m(*e)) is Some,
    ensures
        dec(shape_m(*shape), value_m(*e)) == Some(native_m(r)),
{
    match decode(shape, e) {
        Ok(v) => v,
        Err(_) => NativeValue::Unit,
    }
}

} // verus!
