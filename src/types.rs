use vstd::prelude::*;
use crate::text::{str_is, ocamlize, ocamlize_spec};
use vstd::string::StringExecFns;
use crate::error::{Error, Span};

verus! {

broadcast use vstd::std_specs::vec::group_vec_axioms;

/// The generic arguments written after the last segment of a type path.
#[derive(Debug)]
pub enum PathArgs {
    /// `Name`
    Plain,
    /// `Name<A, B>`; an argument that is not a type (a lifetime, a constant)
    /// is `None`.
    Angle(Vec<Option<SynType>>),
    /// `Name(A) -> B`
    Paren,
}

/// The shape of a type as written in a native declaration.
#[derive(Debug)]
pub enum SynNode {
    /// A path such as `std::vec::Vec<T>`; `ident` is its last segment.
    Path { qself: bool, leading_colon: bool, ident: Option<String>, args: PathArgs },
    Tuple(Vec<SynType>),
    Reference(Box<SynType>),
    Slice(Box<SynType>),
    /// Any other form of type (a pointer, an array, a trait object...).
    Other,
}

/// A type as written in a native declaration, with its source text and
/// location for error reports.
#[derive(Debug)]
pub struct SynType {
    pub node: SynNode,
    pub text: String,
    pub span: Span,
}

/// A type of the cross-boundary vocabulary.
#[derive(Debug, PartialEq, Eq)]
pub enum Type {
    Unit,
    Ident(String),
    Tuple(Vec<Type>),
    VecArray(Box<Type>),
    VecList(Box<Type>),
    RustResult(Box<Type>),
    BigArray1(Box<Type>),
    Option(Box<Type>),
    Result(Box<Type>, Box<Type>),
    Fn0(Box<Type>),
    Fn1(Box<Type>, Box<Type>),
}

/// Names of the single-argument wrappers.
pub open spec fn is_wrapper1(id: Seq<char>) -> bool {
    id == "Option"@ || id == "Vec"@ || id == "VecArray"@ || id == "VecList"@ || id
        == "RustResult"@ || id == "BigArray1"@ || id == "Fn0"@ || id == "Box"@
}

/// Names of the two-argument wrappers.
pub open spec fn is_wrapper2(id: Seq<char>) -> bool {
    id == "Result"@ || id == "Fn1"@
}

/// The first node, in reading order, that the type grammar does not accept;
/// `None` when the whole type is accepted.
pub open spec fn unsupported(t: SynType) -> Option<SynType>
    decreases t,
{
    match t.node {
        SynNode::Path { qself, leading_colon, ident, args } => {
            if qself || leading_colon || ident is None {
                Some(t)
            } else {
                match args {
                    PathArgs::Plain => None,
                    PathArgs::Angle(a) => {
                        if a.len() == 1 {
                            match a@[0] {
                                Some(ty) => match unsupported(ty) {
                                    Some(b) => Some(b),
                                    None => if is_wrapper1(ident->0@) {
                                        None
                                    } else {
                                        Some(t)
                                    },
                                },
                                None => Some(t),
                            }
                        } else if a.len() == 2 {
                            match (a@[0], a@[1]) {
                                (Some(t0), Some(t1)) => match unsupported(t0) {
                                    Some(b) => Some(b),
                                    None => match unsupported(t1) {
                                        Some(b) => Some(b),
                                        None => if is_wrapper2(ident->0@) {
                                            None
                                        } else {
                                            Some(t)
                                        },
                                    },
                                },
                                _ => Some(t),
                            }
                        } else {
                            Some(t)
                        }
                    },
                    PathArgs::Paren => Some(t),
                }
            }
        },
        SynNode::Tuple(ts) => first_unsupported(ts@),
        SynNode::Reference(e) => if e.node is Reference {
            Some(*e)
        } else {
            unsupported(*e)
        },
        SynNode::Slice(e) => unsupported(*e),
        SynNode::Other => Some(t),
    }
}

/// The first unsupported node among `ts`, read from the front.
pub open spec fn first_unsupported(ts: Seq<SynType>) -> Option<SynType>
    decreases ts,
{
    if ts.len() == 0 {
        None
    } else {
        match unsupported(ts[0]) {
            Some(b) => Some(b),
            None => first_unsupported(ts.drop_first()),
        }
    }
}

/// `r` is the vocabulary type that the accepted declaration `t` denotes.
pub open spec fn parsed_as(t: SynType, r: Type) -> bool
    decreases t,
{
    match t.node {
        SynNode::Path { ident, args, .. } => match args {
            PathArgs::Plain => r matches Type::Ident(s) && ident is Some && s@ == ident->0@,
            PathArgs::Angle(a) => {
                &&& ident is Some
                &&& a.len() >= 1
                &&& a@[0] is Some
                &&& {
                    let id = ident->0@;
                    let t0 = a@[0]->0;
                    if a.len() == 1 {
                        if id == "Option"@ {
                            r matches Type::Option(b) && parsed_as(t0, *b)
                        } else if id == "Vec"@ || id == "VecArray"@ {
                            r matches Type::VecArray(b) && parsed_as(t0, *b)
                        } else if id == "VecList"@ {
                            r matches Type::VecList(b) && parsed_as(t0, *b)
                        } else if id == "RustResult"@ {
                            r matches Type::RustResult(b) && parsed_as(t0, *b)
                        } else if id == "BigArray1"@ {
                            r matches Type::BigArray1(b) && parsed_as(t0, *b)
                        } else if id == "Fn0"@ {
                            r matches Type::Fn0(b) && parsed_as(t0, *b)
                        } else {
                            parsed_as(t0, r)
                        }
                    } else {
                        &&& a.len() == 2
                        &&& a@[1] is Some
                        &&& {
                            let t1 = a@[1]->0;
                            if id == "Result"@ {
                                r matches Type::Result(b0, b1) && parsed_as(t0, *b0) && parsed_as(
                                    t1,
                                    *b1,
                                )
                            } else {
                                r matches Type::Fn1(b0, b1) && parsed_as(t0, *b0) && parsed_as(
                                    t1,
                                    *b1,
                                )
                            }
                        }
                    }
                }
            },
            PathArgs::Paren => false,
        },
        SynNode::Tuple(ts) => r matches Type::Tuple(rs) && rs.len() == ts.len() && forall|i: int|
            0 <= i < ts.len() ==> parsed_as(#[trigger] ts@[i], rs@[i]),
        SynNode::Reference(e) => parsed_as(*e, r),
        SynNode::Slice(e) => r matches Type::VecArray(b) && parsed_as(*e, *b),
        SynNode::Other => false,
    }
}

/// The error reported for an unsupported node.
pub open spec fn unsupported_error(e: Error, bad: SynType) -> bool {
    e.span == bad.span && e.message@ == "unsupported type "@ + bad.text@
}

fn unsupported_type(bad: &SynType) -> (e: Error)
    ensures
        unsupported_error(e, *bad),
{
    let mut message = String::from_str("unsupported type ");
    message.append(bad.text.as_str());
    Error { span: bad.span, message }
}

impl Type {
    /// Reads the vocabulary type that a declared type denotes: a reference
    /// stands for its referent (a reference to a reference is refused), a
    /// slice for a dense sequence, `Box<T>` for `T`, and the wrappers with one
    /// or two arguments are dispatched by name.
    pub fn parse_type(ty: &SynType) -> (r: Result<Type, Error>)
        ensures
            match r {
                Ok(t) => unsupported(*ty) is None && parsed_as(*ty, t),
                Err(e) => unsupported(*ty) matches Some(bad) && unsupported_error(e, bad),
            },
        decreases ty,
    {
        match &ty.node {
            SynNode::Path { qself, leading_colon, ident, args } => {
                if *qself || *leading_colon {
                    return Err(unsupported_type(ty));
                }
                let id = match ident {
                    Some(id) => id,
                    None => return Err(unsupported_type(ty)),
                };
                match args {
                    PathArgs::Plain => Ok(Type::Ident(id.clone())),
                    PathArgs::Angle(a) => {
                        if a.len() == 1 {
                            match &a[0] {
                                Some(t0) => {
                                    let inner = Self::parse_type(t0)?;
                                    if str_is(id.as_str(), "Option") {
                                        Ok(Type::Option(Box::new(inner)))
                                    } else if str_is(id.as_str(), "Vec") || str_is(id.as_str(), "VecArray") {
                                        Ok(Type::VecArray(Box::new(inner)))
                                    } else if str_is(id.as_str(), "VecList") {
                                        Ok(Type::VecList(Box::new(inner)))
                                    } else if str_is(id.as_str(), "RustResult") {
                                        Ok(Type::RustResult(Box::new(inner)))
                                    } else if str_is(id.as_str(), "BigArray1") {
                                        Ok(Type::BigArray1(Box::new(inner)))
                                    } else if str_is(id.as_str(), "Fn0") {
                                        Ok(Type::Fn0(Box::new(inner)))
                                    } else if str_is(id.as_str(), "Box") {
                                        Ok(inner)
                                    } else {
                                        Err(unsupported_type(ty))
                                    }
                                },
                                None => Err(unsupported_type(ty)),
                            }
                        } else if a.len() == 2 {
                            match (&a[0], &a[1]) {
                                (Some(t0), Some(t1)) => {
                                    let p0 = Self::parse_type(t0)?;
                                    let p1 = Self::parse_type(t1)?;
                                    if str_is(id.as_str(), "Result") {
                                        Ok(Type::Result(Box::new(p0), Box::new(p1)))
                                    } else if str_is(id.as_str(), "Fn1") {
                                        Ok(Type::Fn1(Box::new(p0), Box::new(p1)))
                                    } else {
                                        Err(unsupported_type(ty))
                                    }
                                },
                                _ => Err(unsupported_type(ty)),
                            }
                        } else {
                            Err(unsupported_type(ty))
                        }
                    },
                    PathArgs::Paren => Err(unsupported_type(ty)),
                }
            },
            SynNode::Tuple(ts) => {
                let mut rs: Vec<Type> = Vec::new();
                let mut i: usize = 0;
                assert(ts@.subrange(0, ts.len() as int) == ts@);
                while i < ts.len()
                    invariant
                        ty.node == SynNode::Tuple(*ts),
                        i <= ts.len(),
                        rs.len() == i,
                        first_unsupported(ts@) == first_unsupported(ts@.subrange(i as int, ts.len() as int)),
                        forall|j: int| 0 <= j < i ==> unsupported(#[trigger] ts@[j]) is None && parsed_as(ts@[j], rs@[j]),
                    decreases ts.len() - i,
                {
                    let ghost rest = ts@.subrange(i as int, ts.len() as int);
                    assert(rest.drop_first() == ts@.subrange(i + 1, ts.len() as int));
                    assert(rest[0] == ts@[i as int]);
                    proof {
                        assert(decreases_to!(*ts => ts[i as int]));
                        assert(decreases_to!(*ty => ts[i as int]));
                    }
                    match Self::parse_type(&ts[i]) {
                        Ok(p) => {
                            rs.push(p);
                        },
                        Err(e) => {
                            assert(first_unsupported(rest) == unsupported(ts@[i as int]));
                            return Err(e);
                        },
                    }
                    i = i + 1;
                }
                assert(ts@.subrange(i as int, ts.len() as int).len() == 0);
                assert(rs@.len() == ts@.len());
                Ok(Type::Tuple(rs))
            },
            SynNode::Reference(e) => {
                if let SynNode::Reference(_) = &e.node {
                    return Err(unsupported_type(e));
                }
                Self::parse_type(e)
            },
            SynNode::Slice(e) => {
                let inner = Self::parse_type(e)?;
                Ok(Type::VecArray(Box::new(inner)))
            },
            SynNode::Other => Err(unsupported_type(ty)),
        }
    }
}

/// The host-language name of a primitive or declared type name.
pub open spec fn host_name(id: Seq<char>) -> Seq<char> {
    if id == "isize"@ || id == "usize"@ {
        "int"@
    } else if id == "i32"@ {
        "Int32.t"@
    } else if id == "i64"@ {
        "Int64.t"@
    } else if id == "f32"@ || id == "f64"@ {
        "float"@
    } else if id == "u8"@ {
        "char"@
    } else {
        ocamlize_spec(id)
    }
}

/// The host element type and element kind of a raw buffer of `id`.
pub open spec fn buffer_elt(id: Seq<char>) -> (Seq<char>, Seq<char>) {
    if id == "f64"@ {
        ("float"@, "Bigarray.float64_elt"@)
    } else if id == "f32"@ {
        ("float"@, "Bigarray.float32_elt"@)
    } else if id == "i64"@ {
        ("int"@, "Bigarray.int64_elt"@)
    } else if id == "i32"@ {
        ("int"@, "Bigarray.int32_elt"@)
    } else if id == "u8"@ {
        ("char"@, "Bigarray.int8_unsigned_elt"@)
    } else {
        (ocamlize_spec(id), ocamlize_spec(id))
    }
}

/// A type that has a host-side spelling: a raw buffer holds a named element type.
pub open spec fn renderable(t: Type) -> bool
    decreases t,
{
    match t {
        Type::Unit => true,
        Type::Ident(_) => true,
        Type::Tuple(ts) => forall|i: int| 0 <= i < ts.len() ==> renderable(#[trigger] ts@[i]),
        Type::VecArray(b) => renderable(*b),
        Type::VecList(b) => renderable(*b),
        Type::RustResult(b) => renderable(*b),
        Type::BigArray1(b) => *b is Ident,
        Type::Option(b) => renderable(*b),
        Type::Result(a, b) => renderable(*a) && renderable(*b),
        Type::Fn0(b) => renderable(*b),
        Type::Fn1(a, b) => renderable(*a) && renderable(*b),
    }
}

/// The host-language spelling of a type.
pub open spec fn render(t: Type) -> Seq<char>
    decreases t,
{
    match t {
        Type::Unit => "unit"@,
        Type::Ident(s) => host_name(s@),
        Type::Tuple(ts) => "("@ + render_join(ts@) + ")"@,
        Type::VecArray(b) => render(*b) + " array"@,
        Type::VecList(b) => render(*b) + " list"@,
        Type::RustResult(b) => "("@ + render(*b) + ", string) Result.t"@,
        Type::BigArray1(b) => match *b {
            Type::Ident(s) => "("@ + buffer_elt(s@).0 + ", "@ + buffer_elt(s@).1
                + ", Bigarray.c_layout) Bigarray.Array1.t"@,
            _ => Seq::empty(),
        },
        Type::Option(b) => render(*b) + " option"@,
        Type::Result(a, b) => "("@ + render(*a) + ", "@ + render(*b) + ") Result.t"@,
        Type::Fn0(b) => "(unit -> ("@ + render(*b) + "))"@,
        Type::Fn1(a, b) => "(("@ + render(*a) + ") -> ("@ + render(*b) + "))"@,
    }
}

/// The spellings of `ts` separated by ` * `.
pub open spec fn render_join(ts: Seq<Type>) -> Seq<char>
    decreases ts,
{
    if ts.len() == 0 {
        Seq::empty()
    } else if ts.len() == 1 {
        render(ts[0])
    } else {
        render_join(ts.drop_last()) + " * "@ + render(ts.last())
    }
}

fn host_name_of(id: &String) -> (r: String)
    ensures
        r@ == host_name(id@),
{
    let s = id.as_str();
    if str_is(s, "isize") || str_is(s, "usize") {
        String::from_str("int")
    } else if str_is(s, "i32") {
        String::from_str("Int32.t")
    } else if str_is(s, "i64") {
        String::from_str("Int64.t")
    } else if str_is(s, "f32") || str_is(s, "f64") {
        String::from_str("float")
    } else if str_is(s, "u8") {
        String::from_str("char")
    } else {
        ocamlize(s)
    }
}

fn buffer_elt_of(id: &String) -> (r: (String, String))
    ensures
        r.0@ == buffer_elt(id@).0,
        r.1@ == buffer_elt(id@).1,
{
    let s = id.as_str();
    if str_is(s, "f64") {
        (String::from_str("float"), String::from_str("Bigarray.float64_elt"))
    } else if str_is(s, "f32") {
        (String::from_str("float"), String::from_str("Bigarray.float32_elt"))
    } else if str_is(s, "i64") {
        (String::from_str("int"), String::from_str("Bigarray.int64_elt"))
    } else if str_is(s, "i32") {
        (String::from_str("int"), String::from_str("Bigarray.int32_elt"))
    } else if str_is(s, "u8") {
        (String::from_str("char"), String::from_str("Bigarray.int8_unsigned_elt"))
    } else {
        (ocamlize(s), ocamlize(s))
    }
}

/// `mid + post` as a new string.
fn suffixed(mid: String, post: &str) -> (r: String)
    ensures
        r@ == mid@ + post@,
{
    let mut r = mid;
    r.append(post);
    r
}

/// `pre + mid + post` as a new string.
fn wrap(pre: &str, mid: &String, post: &str) -> (r: String)
    ensures
        r@ == pre@ + mid@ + post@,
{
    let mut r = String::from_str(pre);
    r.append(mid.as_str());
    r.append(post);
    r
}

impl Type {
    /// Whether the type has a host-side spelling.
    pub fn is_renderable(&self) -> (r: bool)
        ensures
            r == renderable(*self),
        decreases self,
    {
        match self {
            Type::Unit => true,
            Type::Ident(_) => true,
            Type::Tuple(ts) => {
                let mut i: usize = 0;
                while i < ts.len()
                    invariant
                        decreases_to!(*self => *ts),
                        renderable(*self) == forall|j: int| 0 <= j < ts.len() ==> renderable(#[trigger] ts@[j]),
                        i <= ts.len(),
                        forall|j: int| 0 <= j < i ==> renderable(#[trigger] ts@[j]),
                    decreases ts.len() - i,
                {
                    proof {
                        assert(decreases_to!(*ts => ts[i as int]));
                        assert(decreases_to!(*self => ts[i as int]));
                    }
                    if !ts[i].is_renderable() {
                        assert(!renderable(ts@[i as int]));
                        return false;
                    }
                    i = i + 1;
                }
                true
            },
            Type::VecArray(b) => b.is_renderable(),
            Type::VecList(b) => b.is_renderable(),
            Type::RustResult(b) => b.is_renderable(),
            Type::BigArray1(b) => match &**b {
                Type::Ident(_) => true,
                _ => false,
            },
            Type::Option(b) => b.is_renderable(),
            Type::Result(a, b) => a.is_renderable() && b.is_renderable(),
            Type::Fn0(b) => b.is_renderable(),
            Type::Fn1(a, b) => a.is_renderable() && b.is_renderable(),
        }
    }

    /// The host-language spelling of the type.
    pub fn to_ocaml_string(&self) -> (r: String)
        requires
            renderable(*self),
        ensures
            r@ == render(*self),
        decreases self,
    {
        match self {
            Type::Unit => String::from_str("unit"),
            Type::Ident(id) => host_name_of(id),
            Type::Tuple(ts) => {
                let mut res = String::from_str("(");
                let mut i: usize = 0;
                while i < ts.len()
                    invariant
                        decreases_to!(*self => *ts),
                        render(*self) == "("@ + render_join(ts@) + ")"@,
                        forall|j: int| 0 <= j < ts.len() ==> renderable(#[trigger] ts@[j]),
                        i <= ts.len(),
                        res@ == "("@ + render_join(ts@.subrange(0, i as int)),
                    decreases ts.len() - i,
                {
                    proof {
                        assert(decreases_to!(*ts => ts[i as int]));
                        assert(decreases_to!(*self => ts[i as int]));
                    }
                    assert(renderable(ts@[i as int]));
                    let part = ts[i].to_ocaml_string();
                    let ghost pre = ts@.subrange(0, i as int);
                    let ghost next = ts@.subrange(0, i + 1);
                    assert(next.drop_last() == pre);
                    assert(next.last() == ts@[i as int]);
                    if i > 0 {
                        res.append(" * ");
                    }
                    res.append(part.as_str());
                    assert(res@ == "("@ + render_join(next)) by {
                        if i == 0 {
                            assert(next.len() == 1);
                            assert(render_join(next) == render(ts@[0]));
                        }
                    }
                    i = i + 1;
                }
                assert(ts@.subrange(0, ts.len() as int) == ts@);
                res.append(")");
                res
            },
            Type::VecArray(b) => suffixed(b.to_ocaml_string(), " array"),
            Type::VecList(b) => suffixed(b.to_ocaml_string(), " list"),
            Type::RustResult(b) => wrap("(", &b.to_ocaml_string(), ", string) Result.t"),
            Type::BigArray1(b) => match &**b {
                Type::Ident(id) => {
                    let (ocaml_type, elt_type) = buffer_elt_of(id);
                    let mut res = String::from_str("(");
                    res.append(ocaml_type.as_str());
                    res.append(", ");
                    res.append(elt_type.as_str());
                    res.append(", Bigarray.c_layout) Bigarray.Array1.t");
                    res
                },
                _ => String::new(),
            },
            Type::Option(b) => suffixed(b.to_ocaml_string(), " option"),
            Type::Result(a, b) => {
                let ra = a.to_ocaml_string();
                let rb = b.to_ocaml_string();
                let mut res = wrap("(", &ra, ", ");
                res.append(rb.as_str());
                res.append(") Result.t");
                res
            },
            Type::Fn0(b) => wrap("(unit -> (", &b.to_ocaml_string(), "))"),
            Type::Fn1(a, b) => {
                let ra = a.to_ocaml_string();
                let rb = b.to_ocaml_string();
                let mut res = wrap("((", &ra, ") -> (");
                res.append(rb.as_str());
                res.append("))");
                res
            },
        }
    }
}

} // verus!
