use vstd::prelude::*;
use crate::codec::{decode, encode, DecodeError};
use crate::exn::OCamlExn;
use crate::gc::{Gc, RootedValue};
use crate::model::{dec, enc, well_typed, ShapeM, ValueM};
use crate::value::{NativeValue, Shape, Value, native_m, shape_m, value_m};

verus! {

/// What the host runtime's apply primitive gave back.
#[derive(Debug)]
pub enum CallbackResult {
    /// The closure returned this value.
    Returned(Value),
    /// The closure raised an exception; this is its formatted text.
    Raised(String),
}

/// Why a callback gave no native result.
#[derive(Debug)]
pub enum CallError {
    /// The host closure raised an exception.
    Exception(OCamlExn),
    /// The host closure returned a value of another shape than declared.
    Mismatch(DecodeError),
}

/// `out` is what a callback declared to return `res` yields when the apply
/// primitive gave back `cr`.
pub open spec fn handled(cr: CallbackResult, res: Shape, out: Result<NativeValue, CallError>) -> bool {
    match cr {
        CallbackResult::Raised(text) => out matches Err(CallError::Exception(e)) && e.message@
            == text@,
        CallbackResult::Returned(v) => match out {
            Ok(x) => dec(shape_m(res), value_m(v)) == Some(native_m(x)),
            Err(e) => e is Mismatch && dec(shape_m(res), value_m(v)) is None,
        },
    }
}

/// Turns what the apply primitive gave back into a native result: an
/// exception becomes an error value that carries its text, a returned value
/// is decoded at the declared shape.
pub fn handle_exn(cr: CallbackResult, res: &Shape) -> (out: Result<NativeValue, CallError>)
    ensures
        handled(cr, *res, out),
{
    match cr {
        CallbackResult::Raised(text) => Err(CallError::Exception(OCamlExn { message: text })),
        CallbackResult::Returned(v) => match decode(res, &v) {
            Ok(x) => Ok(x),
            Err(e) => Err(CallError::Mismatch(e)),
        },
    }
}

/// A host closure kept alive for native code, with the shapes of its
/// arguments and result.
pub struct Callback {
    f: RootedValue,
    args: Vec<Shape>,
    res: Shape,
}

impl Callback {
    pub closed spec fn slot(&self) -> int {
        self.f.slot()
    }

    pub closed spec fn arg_shapes(&self) -> Seq<Shape> {
        self.args@
    }

    pub closed spec fn res_shape(&self) -> Shape {
        self.res
    }

    /// Roots the host closure `closure`.
    pub fn new(gc: &mut Gc, closure: Value, args: Vec<Shape>, res: Shape) -> (r: Callback)
        requires
            old(gc).wf(),
            old(gc).slots() < usize::MAX,
        ensures
            final(gc).wf(),
            old(gc).keeps_roots(&*final(gc)),
            final(gc).slots() == old(gc).slots() + 1,
            final(gc).rooted(r.slot()) == Some(closure),
            r.arg_shapes() == args@,
            r.res_shape() == res,
    {
        let f = RootedValue::create(gc, closure);
        Callback { f, args, res }
    }

    /// Calls the closure through the host's apply primitive `apply`, which
    /// receives the closure and the encoded arguments. Calling host code may
    /// change host state, hence `&mut self`.
    pub fn call<F>(&mut self, gc: &Gc, args: &Vec<NativeValue>, apply: F) -> (out: Result<
        NativeValue,
        CallError,
    >) where F: FnOnce(&Value, Vec<Value>) -> CallbackResult
        requires
            gc.wf(),
            gc.rooted(old(self).slot()) is Some,
            args.len() == old(self).arg_shapes().len(),
            forall|i: int|
                0 <= i < args.len() ==> well_typed(
                    shape_m(old(self).arg_shapes()[i]),
                    native_m(#[trigger] args@[i]),
                ),
            forall|c: &Value, a: Vec<Value>| #[trigger] apply.requires((c, a)),
        ensures
            *final(self) == *old(self),
            exists|a: Vec<Value>, cr: CallbackResult|
                {
                    &&& a.len() == args.len()
                    &&& forall|i: int|
                        0 <= i < a.len() ==> #[trigger] value_m(a@[i]) == enc(
                            shape_m(old(self).arg_shapes()[i]),
                            native_m(args@[i]),
                        )
                    &&& gc.rooted(old(self).slot()) matches Some(c) && apply.ensures((&c, a), cr)
                    &&& handled(cr, old(self).res_shape(), out)
                },
    {
        let mut encoded: Vec<Value> = Vec::new();
        let mut i: usize = 0;
        while i < args.len()
            invariant
                i <= args.len(),
                args.len() == self.args@.len(),
                forall|j: int|
                    0 <= j < args.len() ==> well_typed(
                        shape_m(self.args@[j]),
                        native_m(#[trigger] args@[j]),
                    ),
                encoded.len() == i,
                forall|j: int|
                    0 <= j < i ==> #[trigger] value_m(encoded@[j]) == enc(
                        shape_m(self.args@[j]),
                        native_m(args@[j]),
                    ),
            decreases args.len() - i,
        {
            let e = encode(&self.args[i], &args[i]);
            encoded.push(e);
            i = i + 1;
        }
        let closure = self.f.value(gc);
        let ghost a = encoded;
        let cr = apply(closure, encoded);
        let out = handle_exn(cr, &self.res);
        assert(handled(cr, self.res, out));
        out
    }
}

/// A host closure of no argument (it receives the unit value).
pub struct Fn0 {
    cb: Callback,
}

impl Fn0 {
    pub closed spec fn slot(&self) -> int {
        self.cb.slot()
    }

    pub closed spec fn arg_shapes(&self) -> Seq<Shape> {
        self.cb.arg_shapes()
    }

    pub closed spec fn res_shape(&self) -> Shape {
        self.cb.res_shape()
    }

    /// Roots the host closure `closure`.
    pub fn new(gc: &mut Gc, closure: Value, res: Shape) -> (r: Fn0)
        requires
            old(gc).wf(),
            old(gc).slots() < usize::MAX,
        ensures
            final(gc).wf(),
            old(gc).keeps_roots(&*final(gc)),
            final(gc).rooted(r.slot()) == Some(closure),
            r.arg_shapes() == seq![Shape::Unit],
            r.res_shape() == res,
    {
        let shapes = vec![Shape::Unit];
        assert(shapes@ == seq![Shape::Unit]);
        Fn0 { cb: Callback::new(gc, closure, shapes, res) }
    }

    /// Calls the closure through the host's apply primitive; an exception
    /// raised by the closure comes back as an error value.
    pub fn call0<F>(&mut self, gc: &Gc, apply: F) -> (out: Result<NativeValue, CallError>) where
        F: FnOnce(&Value, Vec<Value>) -> CallbackResult,
        requires
            gc.wf(),
            gc.rooted(old(self).slot()) is Some,
            old(self).arg_shapes().len() == 1,
            old(self).arg_shapes()[0] == Shape::Unit,
            forall|c: &Value, a: Vec<Value>| #[trigger] apply.requires((c, a)),
        ensures
            *final(self) == *old(self),
            exists|a: Vec<Value>, cr: CallbackResult|
                {
                    &&& a.len() == 1
                    &&& value_m(a@[0]) == enc(ShapeM::Unit, ValueM::Unit)
                    &&& gc.rooted(old(self).slot()) matches Some(c) && apply.ensures((&c, a), cr)
                    &&& handled(cr, old(self).res_shape(), out)
                },
    {
        let args = vec![NativeValue::Unit];
        self.cb.call(gc, &args, apply)
    }
}

/// A host closure of one argument.
pub struct Fn1 {
    cb: Callback,
}

impl Fn1 {
    pub closed spec fn slot(&self) -> int {
        self.cb.slot()
    }

    pub closed spec fn arg_shapes(&self) -> Seq<Shape> {
        self.cb.arg_shapes()
    }

    pub closed spec fn res_shape(&self) -> Shape {
        self.cb.res_shape()
    }

    /// Roots the host closure `closure`.
    pub fn new(gc: &mut Gc, closure: Value, arg: Shape, res: Shape) -> (r: Fn1)
        requires
            old(gc).wf(),
            old(gc).slots() < usize::MAX,
        ensures
            final(gc).wf(),
            old(gc).keeps_roots(&*final(gc)),
            final(gc).rooted(r.slot()) == Some(closure),
            r.arg_shapes() == seq![arg],
            r.res_shape() == res,
    {
        let shapes = vec![arg];
        assert(shapes@ == seq![arg]);
        Fn1 { cb: Callback::new(gc, closure, shapes, res) }
    }

    /// Calls the closure through the host's apply primitive; an exception
    /// raised by the closure comes back as an error value.
    pub fn call1<F>(&mut self, gc: &Gc, arg: NativeValue, apply: F) -> (out: Result<NativeValue, CallError>) where
        F: FnOnce(&Value, Vec<Value>) -> CallbackResult,
        requires
            gc.wf(),
            gc.rooted(old(self).slot()) is Some,
            old(self).arg_shapes().len() == 1,
            well_typed(shape_m(old(self).arg_shapes()[0]), native_m(arg)),
            forall|c: &Value, a: Vec<Value>| #[trigger] apply.requires((c, a)),
        ensures
            *final(self) == *old(self),
            exists|a: Vec<Value>, cr: CallbackResult|
                {
                    &&& a.len() == 1
                    &&& value_m(a@[0]) == enc(shape_m(old(self).arg_shapes()[0]), native_m(arg))
                    &&& gc.rooted(old(self).slot()) matches Some(c) && apply.ensures((&c, a), cr)
                    &&& handled(cr, old(self).res_shape(), out)
                },
    {
        let args = vec![arg];
        self.cb.call(gc, &args, apply)
    }
}

/// A host closure of two arguments.
pub struct Fn2 {
    cb: Callback,
}

impl Fn2 {
    pub closed spec fn slot(&self) -> int {
        self.cb.slot()
    }

    pub closed spec fn arg_shapes(&self) -> Seq<Shape> {
        self.cb.arg_shapes()
    }

    pub closed spec fn res_shape(&self) -> Shape {
        self.cb.res_shape()
    }

    /// Roots the host closure `closure`.
    pub fn new(gc: &mut Gc, closure: Value, arg1: Shape, arg2: Shape, res: Shape) -> (r: Fn2)
        requires
            old(gc).wf(),
            old(gc).slots() < usize::MAX,
        ensures
            final(gc).wf(),
            old(gc).keeps_roots(&*final(gc)),
            final(gc).rooted(r.slot()) == Some(closure),
            r.arg_shapes() == seq![arg1, arg2],
            r.res_shape() == res,
    {
        let shapes = vec![arg1, arg2];
        assert(shapes@ == seq![arg1, arg2]);
        Fn2 { cb: Callback::new(gc, closure, shapes, res) }
    }

    /// Calls the closure through the host's apply primitive; an exception
    /// raised by the closure comes back as an error value.
    pub fn call2<F>(&mut self, gc: &Gc, arg1: NativeValue, arg2: NativeValue, apply: F) -> (out: Result<NativeValue, CallError>) where
        F: FnOnce(&Value, Vec<Value>) -> CallbackResult,
        requires
            gc.wf(),
            gc.rooted(old(self).slot()) is Some,
            old(self).arg_shapes().len() == 2,
            well_typed(shape_m(old(self).arg_shapes()[0]), native_m(arg1)) && well_typed(shape_m(old(self).arg_shapes()[1]), native_m(arg2)),
            forall|c: &Value, a: Vec<Value>| #[trigger] apply.requires((c, a)),
        ensures
            *final(self) == *old(self),
            exists|a: Vec<Value>, cr: CallbackResult|
                {
                    &&& a.len() == 2
                    &&& value_m(a@[0]) == enc(shape_m(old(self).arg_shapes()[0]), native_m(arg1))
                    &&& value_m(a@[1]) == enc(shape_m(old(self).arg_shapes()[1]), native_m(arg2))
                    &&& gc.rooted(old(self).slot()) matches Some(c) && apply.ensures((&c, a), cr)
                    &&& handled(cr, old(self).res_shape(), out)
                },
    {
        let args = vec![arg1, arg2];
        self.cb.call(gc, &args, apply)
    }
}

/// A host closure of three arguments.
pub struct Fn3 {
    cb: Callback,
}

impl Fn3 {
    pub closed spec fn slot(&self) -> int {
        self.cb.slot()
    }

    pub closed spec fn arg_shapes(&self) -> Seq<Shape> {
        self.cb.arg_shapes()
    }

    pub closed spec fn res_shape(&self) -> Shape {
        self.cb.res_shape()
    }

    /// Roots the host closure `closure`.
    pub fn new(gc: &mut Gc, closure: Value, arg1: Shape, arg2: Shape, arg3: Shape, res: Shape) -> (r: Fn3)
        requires
            old(gc).wf(),
            old(gc).slots() < usize::MAX,
        ensures
            final(gc).wf(),
            old(gc).keeps_roots(&*final(gc)),
            final(gc).rooted(r.slot()) == Some(closure),
            r.arg_shapes() == seq![arg1, arg2, arg3],
            r.res_shape() == res,
    {
        let shapes = vec![arg1, arg2, arg3];
        assert(shapes@ == seq![arg1, arg2, arg3]);
        Fn3 { cb: Callback::new(gc, closure, shapes, res) }
    }

    /// Calls the closure through the host's apply primitive; an exception
    /// raised by the closure comes back as an error value.
    pub fn call3<F>(&mut self, gc: &Gc, arg1: NativeValue, arg2: NativeValue, arg3: NativeValue, apply: F) -> (out: Result<NativeValue, CallError>) where
        F: FnOnce(&Value, Vec<Value>) -> CallbackResult,
        requires
            gc.wf(),
            gc.rooted(old(self).slot()) is Some,
            old(self).arg_shapes().len() == 3,
            well_typed(shape_m(old(self).arg_shapes()[0]), native_m(arg1)) && well_typed(shape_m(old(self).arg_shapes()[1]), native_m(arg2)) && well_typed(shape_m(old(self).arg_shapes()[2]), native_m(arg3)),
            forall|c: &Value, a: Vec<Value>| #[trigger] apply.requires((c, a)),
        ensures
            *final(self) == *old(self),
            exists|a: Vec<Value>, cr: CallbackResult|
                {
                    &&& a.len() == 3
                    &&& value_m(a@[0]) == enc(shape_m(old(self).arg_shapes()[0]), native_m(arg1))
                    &&& value_m(a@[1]) == enc(shape_m(old(self).arg_shapes()[1]), native_m(arg2))
                    &&& value_m(a@[2]) == enc(shape_m(old(self).arg_shapes()[2]), native_m(arg3))
                    &&& gc.rooted(old(self).slot()) matches Some(c) && apply.ensures((&c, a), cr)
                    &&& handled(cr, old(self).res_shape(), out)
                },
    {
        let args = vec![arg1, arg2, arg3];
        self.cb.call(gc, &args, apply)
    }
}

} // verus!
