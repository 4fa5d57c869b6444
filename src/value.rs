use vstd::prelude::*;
use crate::model::{ShapeM, ValueM, EncodedM, BufferKind};

verus! {

broadcast use vstd::std_specs::vec::group_vec_axioms;

/// The layout that a native value takes on the host side: the runtime form of
/// a declared type, with records and tagged unions given by their fields.
#[derive(Debug, PartialEq, Eq)]
pub enum Shape {
    Unit,
    Int,
    Bool,
    Int32,
    Int64,
    Float,
    Bytes,
    Text,
    Tuple(Vec<Shape>),
    Record(Vec<Shape>),
    Array(Box<Shape>),
    List(Box<Shape>),
    Option(Box<Shape>),
    Result(Box<Shape>, Box<Shape>),
    /// One field list per declared variant, in declaration order.
    Variant(Vec<Vec<Shape>>),
    /// A contiguous buffer of numbers of one kind.
    Buffer(BufferKind),
}

/// A native value of the cross-boundary vocabulary. Floats are held as their
/// IEEE-754 bit patterns.
#[derive(Debug, PartialEq, Eq)]
pub enum NativeValue {
    Unit,
    Int(i64),
    Bool(bool),
    Int32(i32),
    Int64(i64),
    Float(u64),
    Bytes(Vec<u8>),
    Text(String),
    /// A tuple, or a record with its fields in declaration order.
    Tuple(Vec<NativeValue>),
    Array(Vec<NativeValue>),
    List(Vec<NativeValue>),
    Absent,
    Present(Box<NativeValue>),
    Success(Box<NativeValue>),
    Failure(Box<NativeValue>),
    /// The variant at this declaration index, with its fields.
    Variant(usize, Vec<NativeValue>),
    /// The elements of a raw buffer, each as its bit pattern.
    Buffer(Vec<u64>),
}

/// A host-runtime value: an immediate integer or a tagged block.
#[derive(Debug, PartialEq, Eq)]
pub enum Value {
    Imm(i64),
    Block(u8, Vec<Value>),
    /// A string block.
    Bytes(Vec<u8>),
    /// A boxed float.
    Double(u64),
    /// A flat block of floats.
    DoubleArray(Vec<u64>),
    /// A boxed 32-bit integer.
    Int32(i32),
    /// A boxed 64-bit integer.
    Int64(i64),
    /// A one-dimensional buffer block holding a copy of the elements.
    BigArray(BufferKind, Vec<u64>),
}

pub open spec fn shape_m(s: Shape) -> ShapeM
    decreases s,
{
    match s {
        Shape::Unit => ShapeM::Unit,
        Shape::Int => ShapeM::Int,
        Shape::Bool => ShapeM::Bool,
        Shape::Int32 => ShapeM::Int32,
        Shape::Int64 => ShapeM::Int64,
        Shape::Float => ShapeM::Float,
        Shape::Bytes => ShapeM::Bytes,
        Shape::Text => ShapeM::Text,
        Shape::Tuple(ss) => ShapeM::Tuple(shapes_m(ss@)),
        Shape::Record(ss) => ShapeM::Record(shapes_m(ss@)),
        Shape::Array(e) => ShapeM::Array(Box::new(shape_m(*e))),
        Shape::List(e) => ShapeM::List(Box::new(shape_m(*e))),
        Shape::Option(e) => ShapeM::Option(Box::new(shape_m(*e))),
        Shape::Result(a, b) => ShapeM::Result(Box::new(shape_m(*a)), Box::new(shape_m(*b))),
        Shape::Variant(vars) => ShapeM::Variant(variants_m(vars@)),
        Shape::Buffer(k) => ShapeM::Buffer(k),
    }
}

pub open spec fn shapes_m(ss: Seq<Shape>) -> Seq<ShapeM>
    decreases ss,
{
    if ss.len() == 0 {
        Seq::empty()
    } else {
        shapes_m(ss.drop_last()).push(shape_m(ss.last()))
    }
}

pub open spec fn variants_m(vars: Seq<Vec<Shape>>) -> Seq<Seq<ShapeM>>
    decreases vars,
{
    if vars.len() == 0 {
        Seq::empty()
    } else {
        variants_m(vars.drop_last()).push(shapes_m(vars.last()@))
    }
}

pub open spec fn native_m(v: NativeValue) -> ValueM
    decreases v,
{
    match v {
        NativeValue::Unit => ValueM::Unit,
        NativeValue::Int(n) => ValueM::Int(n as int),
        NativeValue::Bool(b) => ValueM::Bool(b),
        NativeValue::Int32(x) => ValueM::Int32(x),
        NativeValue::Int64(x) => ValueM::Int64(x),
        NativeValue::Float(x) => ValueM::Float(x),
        NativeValue::Bytes(b) => ValueM::Bytes(b@),
        NativeValue::Text(t) => ValueM::Text(t@),
        NativeValue::Tuple(vs) => ValueM::Tuple(natives_m(vs@)),
        NativeValue::Array(vs) => ValueM::Array(natives_m(vs@)),
        NativeValue::List(vs) => ValueM::List(natives_m(vs@)),
        NativeValue::Absent => ValueM::Absent,
        NativeValue::Present(x) => ValueM::Present(Box::new(native_m(*x))),
        NativeValue::Success(x) => ValueM::Success(Box::new(native_m(*x))),
        NativeValue::Failure(x) => ValueM::Failure(Box::new(native_m(*x))),
        NativeValue::Variant(i, fs) => ValueM::Variant(i as nat, natives_m(fs@)),
        NativeValue::Buffer(d) => ValueM::Buffer(d@),
    }
}

pub open spec fn natives_m(vs: Seq<NativeValue>) -> Seq<ValueM>
    decreases vs,
{
    if vs.len() == 0 {
        Seq::empty()
    } else {
        natives_m(vs.drop_last()).push(native_m(vs.last()))
    }
}

pub open spec fn value_m(e: Value) -> EncodedM
    decreases e,
{
    match e {
        Value::Imm(n) => EncodedM::Imm(n as int),
        Value::Block(t, fs) => EncodedM::Block(t, values_m(fs@)),
        Value::Bytes(b) => EncodedM::Bytes(b@),
        Value::Double(x) => EncodedM::Double(x),
        Value::DoubleArray(ds) => EncodedM::DoubleArray(ds@),
        Value::Int32(x) => EncodedM::Int32(x),
        Value::Int64(x) => EncodedM::Int64(x),
        Value::BigArray(k, d) => EncodedM::BigArray(k, d@),
    }
}

pub open spec fn values_m(es: Seq<Value>) -> Seq<EncodedM>
    decreases es,
{
    if es.len() == 0 {
        Seq::empty()
    } else {
        values_m(es.drop_last()).push(value_m(es.last()))
    }
}

pub proof fn lemma_shapes_m(ss: Seq<Shape>)
    ensures
        shapes_m(ss).len() == ss.len(),
        forall|i: int| 0 <= i < ss.len() ==> #[trigger] shapes_m(ss)[i] == shape_m(ss[i]),
    decreases ss.len(),
{
    if ss.len() > 0 {
        lemma_shapes_m(ss.drop_last());
    }
}

pub proof fn lemma_variants_m(vars: Seq<Vec<Shape>>)
    ensures
        variants_m(vars).len() == vars.len(),
        forall|i: int| 0 <= i < vars.len() ==> #[trigger] variants_m(vars)[i] == shapes_m(vars[i]@),
    decreases vars.len(),
{
    if vars.len() > 0 {
        lemma_variants_m(vars.drop_last());
    }
}

pub proof fn lemma_natives_m(vs: Seq<NativeValue>)
    ensures
        natives_m(vs).len() == vs.len(),
        forall|i: int| 0 <= i < vs.len() ==> #[trigger] natives_m(vs)[i] == native_m(vs[i]),
    decreases vs.len(),
{
    if vs.len() > 0 {
        lemma_natives_m(vs.drop_last());
    }
}

pub proof fn lemma_values_m(es: Seq<Value>)
    ensures
        values_m(es).len() == es.len(),
        forall|i: int| 0 <= i < es.len() ==> #[trigger] values_m(es)[i] == value_m(es[i]),
    decreases es.len(),
{
    if es.len() > 0 {
        lemma_values_m(es.drop_last());
    }
}

/// The unit value.
pub fn unit() -> (r: Value)
    ensures
        r == Value::Imm(0),
{
    Value::Imm(0)
}

/// An integer as an immediate.
pub fn int_value(i: i64) -> (r: Value)
    ensures
        r == Value::Imm(i),
{
    Value::Imm(i)
}

/// A boolean as the immediate 0 or 1.
pub fn bool(b: bool) -> (r: Value)
    ensures
        r == Value::Imm(if b { 1 } else { 0 }),
{
    Value::Imm(if b { 1 } else { 0 })
}

impl Value {
    /// The empty optional value.
    pub fn none() -> (r: Value)
        ensures
            r == Value::Imm(0),
    {
        Value::Imm(0)
    }
}

} // verus!
