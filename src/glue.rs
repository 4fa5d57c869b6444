use vstd::prelude::*;
use crate::api::{Api, ApiItem, ModItem, c_fn_name_spec, mangle};
use crate::resolve::{shape_for, shape_of};
use crate::model::ShapeM;
use vstd::string::StringExecFns;
use crate::codec::{decode, encode, DecodeError};
use crate::error::Error;
use crate::model::{dec, enc, well_typed};
use crate::value::{NativeValue, Shape, Value, native_m, shape_m, value_m};

verus! {

broadcast use vstd::std_specs::vec::group_vec_axioms;

/// One parameter of an entry point.
#[derive(Debug)]
pub struct EntryParam {
    pub name: String,
    /// Whether the native function takes it by reference; the entry point then
    /// passes a reference to the decoded value.
    pub by_ref: bool,
    /// Its host layout, when the type is built from primitives.
    pub shape: Option<Shape>,
}

/// The exported entry point of one declared function: the symbol the host
/// calls, the path of the native function it calls, and how each argument and
/// the result cross the boundary.
#[derive(Debug)]
pub struct EntryPoint {
    pub symbol: String,
    /// The namespace path, then the function's name.
    pub path: Vec<String>,
    pub params: Vec<EntryParam>,
    pub result: Option<Shape>,
}

/// The functions of all declaration blocks among `items`, in order.
pub open spec fn all_fns(items: Seq<ApiItem>) -> Seq<ModItem>
    decreases items.len(),
{
    if items.len() == 0 {
        Seq::empty()
    } else {
        all_fns(items.drop_last()) + match items.last() {
            ApiItem::ForeignMod { items: ms, .. } => ms@,
            _ => Seq::empty(),
        }
    }
}

/// `o` is the layout that `s` describes, or both are absent.
pub open spec fn same_shape(o: Option<Shape>, s: Option<ShapeM>) -> bool {
    match o {
        Some(x) => s == Some(shape_m(x)),
        None => s is None,
    }
}

pub open spec fn names(v: Seq<String>) -> Seq<Seq<char>> {
    v.map_values(|s: String| s@)
}

/// `e` is the entry point of function `m` of module `api`.
pub open spec fn entry_of(api: Seq<char>, m: ModItem, e: EntryPoint) -> bool {
    match m {
        ModItem::Fn { ident, args, output, namespace } => {
            &&& e.symbol@ == c_fn_name_spec(api, ident@, namespace)
            &&& names(e.path@) == match namespace {
                None => Seq::empty(),
                Some(v) => names(v@),
            }.push(ident@)
            &&& e.params.len() == args.len()
            &&& forall|i: int|
                0 <= i < args.len() ==> {
                    let p = #[trigger] e.params@[i];
                    &&& p.name@ == args@[i].0@
                    &&& p.by_ref == args@[i].1
                    &&& same_shape(p.shape, shape_for(args@[i].2))
                }
            &&& same_shape(e.result, shape_for(output))
        },
    }
}

/// The position of the first item that no glue can be made for.
pub open spec fn first_other(items: Seq<ApiItem>) -> Option<int> {
    if exists|i: int| 0 <= i < items.len() && items[i] is Other {
        Some(
            choose|i: int|
                0 <= i < items.len() && items[i] is Other && forall|j: int|
                    0 <= j < i ==> !(#[trigger] items[j] is Other),
        )
    } else {
        None
    }
}

fn copy_names(v: &Vec<String>) -> (r: Vec<String>)
    ensures
        names(r@) == names(v@),
{
    let mut r: Vec<String> = Vec::new();
    let mut i: usize = 0;
    while i < v.len()
        invariant
            i <= v.len(),
            names(r@) == names(v@.subrange(0, i as int)),
        decreases v.len() - i,
    {
        let ghost before = r@;
        r.push(v[i].clone());
        assert(names(r@) =~= names(before).push(v@[i as int]@));
        assert(names(v@.subrange(0, i + 1)) =~= names(v@.subrange(0, i as int)).push(v@[i as int]@));
        i = i + 1;
    }
    assert(v@.subrange(0, v.len() as int) =~= v@);
    r
}

/// The entry point of function `m` of module `api`.
pub fn entry_point(api: &String, m: &ModItem) -> (e: EntryPoint)
    ensures
        entry_of(api@, *m, e),
{
    match m {
        ModItem::Fn { ident, args, output, namespace } => {
            let mut path = match namespace {
                None => Vec::new(),
                Some(v) => copy_names(v),
            };
            let ghost before = path@;
            path.push(ident.clone());
            assert(names(path@) =~= names(before).push(ident@));
            proof {
                if namespace is None {
                    assert(names(before) =~= Seq::<Seq<char>>::empty());
                }
            }
            let mut params: Vec<EntryParam> = Vec::new();
            let mut i: usize = 0;
            while i < args.len()
                invariant
                    i <= args.len(),
                    params.len() == i,
                    forall|j: int|
                        0 <= j < i ==> {
                            let p = #[trigger] params@[j];
                            &&& p.name@ == args@[j].0@
                            &&& p.by_ref == args@[j].1
                            &&& same_shape(p.shape, shape_for(args@[j].2))
                        },
                decreases args.len() - i,
            {
                let a = &args[i];
                params.push(EntryParam { name: a.0.clone(), by_ref: a.1, shape: shape_of(&a.2) });
                i = i + 1;
            }
            EntryPoint {
                symbol: mangle(api, ident, namespace),
                path,
                params,
                result: shape_of(output),
            }
        },
    }
}

impl Api {
    /// The entry point of every declared function, one per function in
    /// declaration order; an item that is neither a declaration block nor a
    /// type is refused.
    pub fn expand(&self) -> (r: Result<Vec<EntryPoint>, Error>)
        ensures
            match r {
                Ok(v) => first_other(self.api_items@) is None && v.len() == all_fns(
                    self.api_items@,
                ).len() && forall|k: int|
                    0 <= k < v.len() ==> entry_of(
                        self.ident@,
                        all_fns(self.api_items@)[k],
                        #[trigger] v@[k],
                    ),
                Err(e) => first_other(self.api_items@) matches Some(i) && self.api_items@[i]
                    == ApiItem::Other(e.span) && e.message@ == "unsupported"@,
            },
    {
        let items = &self.api_items;
        let mut r: Vec<EntryPoint> = Vec::new();
        let mut i: usize = 0;
        while i < items.len()
            invariant
                items == &self.api_items,
                i <= items.len(),
                forall|j: int| 0 <= j < i ==> !(#[trigger] items@[j] is Other),
                r.len() == all_fns(items@.subrange(0, i as int)).len(),
                forall|k: int|
                    0 <= k < r.len() ==> entry_of(
                        self.ident@,
                        all_fns(items@.subrange(0, i as int))[k],
                        #[trigger] r@[k],
                    ),
            decreases items.len() - i,
        {
            let ghost next = items@.subrange(0, i + 1);
            let ghost done = all_fns(items@.subrange(0, i as int));
            assert(next.drop_last() =~= items@.subrange(0, i as int));
            assert(next.last() == items@[i as int]);
            match &items[i] {
                ApiItem::ForeignMod { items: ms, .. } => {
                    assert(all_fns(next) == done + ms@);
                    let mut j: usize = 0;
                    while j < ms.len()
                        invariant
                            j <= ms.len(),
                            r.len() == done.len() + j,
                            forall|k: int|
                                0 <= k < r.len() ==> entry_of(
                                    self.ident@,
                                    (done + ms@)[k],
                                    #[trigger] r@[k],
                                ),
                        decreases ms.len() - j,
                    {
                        let e = entry_point(&self.ident, &ms[j]);
                        r.push(e);
                        j = j + 1;
                    }
                },
                ApiItem::Other(span) => {
                    proof {
                        assert(items@[i as int] is Other);
                        let k = choose|k: int|
                            0 <= k < items@.len() && items@[k] is Other && forall|j: int|
                                0 <= j < k ==> !(#[trigger] items@[j] is Other);
                        if k > i {
                            assert(!(items@[i as int] is Other));
                        }
                        assert(k == i);
                    }
                    return Err(Error { span: *span, message: String::from_str("unsupported") });
                },
                _ => {
                    assert(all_fns(next) =~= done);
                },
            }
            i = i + 1;
        }
        assert(items@.subrange(0, items.len() as int) =~= items@);
        Ok(r)
    }
}

/// `a` holds the native values that the host values `args` decode to at the
/// shapes `params`.
pub open spec fn decoded_args(params: Seq<Shape>, args: Seq<Value>, a: Seq<NativeValue>) -> bool {
    &&& a.len() == args.len()
    &&& forall|i: int|
        0 <= i < args.len() ==> dec(shape_m(params[i]), value_m(args[i])) == Some(
            native_m(#[trigger] a[i]),
        )
}

/// What the entry point of a native function does when the host calls it:
/// decodes each argument at its declared shape, calls the function, and
/// encodes its result. An argument that does not fit its shape is refused
/// before the function runs. A parameter taken by reference receives the
/// freshly decoded value, whose changes never flow back to the host, so it is
/// handed over here like any other.
pub fn call_entry<F>(params: &Vec<Shape>, ret: &Shape, args: &Vec<Value>, f: F) -> (r: Result<
    Value,
    DecodeError,
>) where F: FnOnce(Vec<NativeValue>) -> NativeValue
    requires
        args.len() == params.len(),
        forall|a: Vec<NativeValue>| #[trigger] f.requires((a,)),
        forall|a: Vec<NativeValue>, v: NativeValue|
            #[trigger] f.ensures((a,), v) ==> well_typed(shape_m(*ret), native_m(v)),
    ensures
        match r {
            Ok(out) => exists|a: Vec<NativeValue>, v: NativeValue|
                {
                    &&& decoded_args(params@, args@, a@)
                    &&& #[trigger] f.ensures((a,), v)
                    &&& value_m(out) == enc(shape_m(*ret), native_m(v))
                },
            Err(_) => exists|i: int|
                0 <= i < args.len() && dec(shape_m(params@[i]), value_m(#[trigger] args@[i])) is None,
        },
{
    let mut decoded: Vec<NativeValue> = Vec::new();
    let mut i: usize = 0;
    while i < args.len()
        invariant
            args.len() == params.len(),
            i <= args.len(),
            decoded.len() == i,
            forall|j: int|
                0 <= j < i ==> dec(shape_m(params@[j]), value_m(args@[j])) == Some(
                    native_m(#[trigger] decoded@[j]),
                ),
        decreases args.len() - i,
    {
        match decode(&params[i], &args[i]) {
            Ok(v) => {
                decoded.push(v);
            },
            Err(e) => {
                assert(dec(shape_m(params@[i as int]), value_m(args@[i as int])) is None);
                return Err(e);
            },
        }
        i = i + 1;
    }
    let ghost a = decoded;
    assert(decoded_args(params@, args@, a@));
    let v = f(decoded);
    Ok(encode(ret, &v))
}

} // verus!
