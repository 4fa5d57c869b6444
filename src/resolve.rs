use vstd::prelude::*;
use crate::model::{BufferKind, ShapeM};
use crate::text::str_is;
use crate::types::Type;
use crate::value::{Shape, shape_m, shapes_m};

verus! {

broadcast use vstd::std_specs::vec::group_vec_axioms;

/// The layout of a primitive type name; `None` for a declared name.
pub open spec fn prim_shape(id: Seq<char>) -> Option<ShapeM> {
    if id == "isize"@ || id == "usize"@ {
        Some(ShapeM::Int)
    } else if id == "i64"@ {
        Some(ShapeM::Int64)
    } else if id == "i32"@ {
        Some(ShapeM::Int32)
    } else if id == "f64"@ || id == "f32"@ {
        Some(ShapeM::Float)
    } else if id == "bool"@ {
        Some(ShapeM::Bool)
    } else if id == "String"@ {
        Some(ShapeM::Text)
    } else {
        None
    }
}

/// The element kind of a raw buffer of `id`.
pub open spec fn buffer_kind(id: Seq<char>) -> Option<BufferKind> {
    if id == "u8"@ {
        Some(BufferKind::Uint8)
    } else if id == "i32"@ {
        Some(BufferKind::Int32)
    } else if id == "i64"@ {
        Some(BufferKind::Int64)
    } else if id == "f32"@ {
        Some(BufferKind::Float32)
    } else if id == "f64"@ {
        Some(BufferKind::Float64)
    } else {
        None
    }
}

/// The host layout of a vocabulary type built from primitives; `None` for
/// declared records, unions and opaque types, and for callbacks, whose
/// layouts come from their declarations and handles.
pub open spec fn shape_for(t: Type) -> Option<ShapeM>
    decreases t,
{
    match t {
        Type::Unit => Some(ShapeM::Unit),
        Type::Ident(s) => prim_shape(s@),
        Type::Tuple(ts) => match shapes_for(ts@) {
            Some(ss) => Some(ShapeM::Tuple(ss)),
            None => None,
        },
        Type::VecArray(b) => if *b matches Type::Ident(s) && s@ == "u8"@ {
            Some(ShapeM::Bytes)
        } else {
            match shape_for(*b) {
                Some(e) => Some(ShapeM::Array(Box::new(e))),
                None => None,
            }
        },
        Type::VecList(b) => match shape_for(*b) {
            Some(e) => Some(ShapeM::List(Box::new(e))),
            None => None,
        },
        Type::Option(b) => match shape_for(*b) {
            Some(e) => Some(ShapeM::Option(Box::new(e))),
            None => None,
        },
        Type::RustResult(b) => match shape_for(*b) {
            Some(e) => Some(ShapeM::Result(Box::new(e), Box::new(ShapeM::Text))),
            None => None,
        },
        Type::Result(a, b) => match (shape_for(*a), shape_for(*b)) {
            (Some(x), Some(y)) => Some(ShapeM::Result(Box::new(x), Box::new(y))),
            _ => None,
        },
        Type::BigArray1(b) => match *b {
            Type::Ident(s) => match buffer_kind(s@) {
                Some(k) => Some(ShapeM::Buffer(k)),
                None => None,
            },
            _ => None,
        },
        Type::Fn0(_) => None,
        Type::Fn1(_, _) => None,
    }
}

/// The layouts of `ts`, if each has one.
pub open spec fn shapes_for(ts: Seq<Type>) -> Option<Seq<ShapeM>>
    decreases ts,
{
    if ts.len() == 0 {
        Some(Seq::empty())
    } else {
        match (shapes_for(ts.drop_last()), shape_for(ts.last())) {
            (Some(ss), Some(s)) => Some(ss.push(s)),
            _ => None,
        }
    }
}

fn prim_shape_of(id: &String) -> (r: Option<Shape>)
    ensures
        match r {
            Some(s) => prim_shape(id@) == Some(shape_m(s)),
            None => prim_shape(id@) is None,
        },
{
    let s = id.as_str();
    if str_is(s, "isize") || str_is(s, "usize") {
        Some(Shape::Int)
    } else if str_is(s, "i64") {
        Some(Shape::Int64)
    } else if str_is(s, "i32") {
        Some(Shape::Int32)
    } else if str_is(s, "f64") || str_is(s, "f32") {
        Some(Shape::Float)
    } else if str_is(s, "bool") {
        Some(Shape::Bool)
    } else if str_is(s, "String") {
        Some(Shape::Text)
    } else {
        None
    }
}

fn buffer_kind_of(id: &String) -> (r: Option<BufferKind>)
    ensures
        r == buffer_kind(id@),
{
    let s = id.as_str();
    if str_is(s, "u8") {
        Some(BufferKind::Uint8)
    } else if str_is(s, "i32") {
        Some(BufferKind::Int32)
    } else if str_is(s, "i64") {
        Some(BufferKind::Int64)
    } else if str_is(s, "f32") {
        Some(BufferKind::Float32)
    } else if str_is(s, "f64") {
        Some(BufferKind::Float64)
    } else {
        None
    }
}

/// The host layout that values of a vocabulary type take, when it is built
/// from primitives alone. `Vec<u8>` is a byte string.
pub fn shape_of(t: &Type) -> (r: Option<Shape>)
    ensures
        match r {
            Some(s) => shape_for(*t) == Some(shape_m(s)),
            None => shape_for(*t) is None,
        },
    decreases t,
{
    match t {
        Type::Unit => Some(Shape::Unit),
        Type::Ident(s) => prim_shape_of(s),
        Type::Tuple(ts) => {
            let mut out: Vec<Shape> = Vec::new();
            let mut i: usize = 0;
            while i < ts.len()
                invariant
                    decreases_to!(*t => *ts),
                    shape_for(*t) == match shapes_for(ts@) {
                        Some(ss) => Some(ShapeM::Tuple(ss)),
                        None => None,
                    },
                    i <= ts.len(),
                    shapes_for(ts@.subrange(0, i as int)) == Some(shapes_m(out@)),
                decreases ts.len() - i,
            {
                proof {
                    assert(decreases_to!(*ts => ts[i as int]));
                    assert(decreases_to!(*t => ts[i as int]));
                }
                let ghost next = ts@.subrange(0, i + 1);
                assert(next.drop_last() =~= ts@.subrange(0, i as int));
                assert(next.last() == ts@[i as int]);
                match shape_of(&ts[i]) {
                    Some(s) => {
                        let ghost before = out@;
                        out.push(s);
                        assert(out@.drop_last() =~= before);
                    },
                    None => {
                        proof {
                            lemma_shapes_for_prefix(ts@, i as int + 1);
                        }
                        return None;
                    },
                }
                i = i + 1;
            }
            assert(ts@.subrange(0, ts.len() as int) =~= ts@);
            Some(Shape::Tuple(out))
        },
        Type::VecArray(b) => {
            match &**b {
                Type::Ident(s) => {
                    if str_is(s.as_str(), "u8") {
                        return Some(Shape::Bytes);
                    }
                },
                _ => {},
            }
            match shape_of(b) {
                Some(e) => Some(Shape::Array(Box::new(e))),
                None => None,
            }
        },
        Type::VecList(b) => match shape_of(b) {
            Some(e) => Some(Shape::List(Box::new(e))),
            None => None,
        },
        Type::Option(b) => match shape_of(b) {
            Some(e) => Some(Shape::Option(Box::new(e))),
            None => None,
        },
        Type::RustResult(b) => match shape_of(b) {
            Some(e) => {
                assert(shape_m(Shape::Text) == ShapeM::Text);
                Some(Shape::Result(Box::new(e), Box::new(Shape::Text)))
            },
            None => None,
        },
        Type::Result(a, b) => match (shape_of(a), shape_of(b)) {
            (Some(x), Some(y)) => Some(Shape::Result(Box::new(x), Box::new(y))),
            _ => None,
        },
        Type::BigArray1(b) => match &**b {
            Type::Ident(s) => match buffer_kind_of(s) {
                Some(k) => Some(Shape::Buffer(k)),
                None => None,
            },
            _ => None,
        },
        Type::Fn0(_) => None,
        Type::Fn1(_, _) => None,
    }
}

proof fn lemma_shapes_for_prefix(ts: Seq<Type>, k: int)
    requires
        0 <= k <= ts.len(),
        shapes_for(ts.subrange(0, k)) is None,
    ensures
        shapes_for(ts) is None,
    decreases ts.len() - k,
{
    if k < ts.len() {
        assert(ts.subrange(0, k + 1).drop_last() =~= ts.subrange(0, k));
        lemma_shapes_for_prefix(ts, k + 1);
    } else {
        assert(ts.subrange(0, k) =~= ts);
    }
}

} // verus!
