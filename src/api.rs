use vstd::prelude::*;
use vstd::string::StringExecFns;
use crate::error::{Error, Span};
use crate::text::{str_is, text_lt, text_less, lemma_text_lt_total, lemma_text_lt_trans};
use crate::types::{SynType, Type, unsupported, parsed_as};

verus! {

broadcast use vstd::std_specs::vec::group_vec_axioms;

/// The language named by an `extern "..."` block.
#[derive(Clone, Copy, Debug, PartialEq, Eq, Structural)]
pub enum Lang {
    OCaml,
    Rust,
}

/// The ABI string of an `extern` block, as written.
#[derive(Debug)]
pub struct Abi {
    pub name: Option<String>,
    pub span: Span,
}

/// One parameter of a declared function, as written.
#[derive(Debug)]
pub struct ArgSyntax {
    /// The parameter's name when its pattern is a plain identifier.
    pub ident: Option<String>,
    /// Whether this is a `self` parameter.
    pub is_self: bool,
    pub ty: SynType,
    pub span: Span,
}

/// A function declared in an `extern` block, as written.
#[derive(Debug)]
pub struct ForeignFnSyntax {
    pub ident: String,
    pub args: Vec<ArgSyntax>,
    /// `None` when no return type is written.
    pub output: Option<SynType>,
    /// The module path the function is implemented under, if any.
    pub namespace: Option<Vec<String>>,
}

/// An item of an `extern` block, as written.
#[derive(Debug)]
pub enum ForeignItemSyntax {
    Fn(ForeignFnSyntax),
    /// Anything but a function.
    Other(Span),
}

/// A field of a record or of a variant, as written.
#[derive(Debug)]
pub struct FieldDecl {
    pub ident: Option<String>,
    pub ty: SynType,
    pub span: Span,
}

/// A variant, as written: `named` when its fields are written in braces.
#[derive(Debug)]
pub struct VariantDecl {
    pub ident: String,
    pub named: bool,
    pub fields: Vec<FieldDecl>,
}

/// A record declaration; `deriving` lists what `ocaml_deriving` attributes
/// ask the host side to derive.
#[derive(Debug)]
pub struct StructDecl {
    pub ident: String,
    pub deriving: Vec<String>,
    pub fields: Vec<FieldDecl>,
    pub span: Span,
}

/// A tagged-union declaration.
#[derive(Debug)]
pub struct EnumDecl {
    pub ident: String,
    pub deriving: Vec<String>,
    pub variants: Vec<VariantDecl>,
    pub span: Span,
}

/// An item of a bridge module, as written.
#[derive(Debug)]
pub enum ItemSyntax {
    /// `ocaml_include!("...")`: host text copied verbatim.
    Include(String),
    Struct(StructDecl),
    Enum(EnumDecl),
    /// `type X = ...;`: a type the host side sees as abstract.
    Type(String),
    ForeignMod { abi: Abi, items: Vec<ForeignItemSyntax> },
    Other(Span),
}

/// A record declaration, checked: its fields' names and types.
#[derive(Debug)]
pub struct StructDef {
    pub ident: String,
    pub deriving: Vec<String>,
    pub fields: Vec<(String, Type)>,
}

/// A variant, checked. Unnamed fields have empty names.
#[derive(Debug)]
pub struct VariantDef {
    pub ident: String,
    pub named: bool,
    pub fields: Vec<(String, Type)>,
}

/// A tagged-union declaration, checked.
#[derive(Debug)]
pub struct EnumDef {
    pub ident: String,
    pub deriving: Vec<String>,
    pub variants: Vec<VariantDef>,
}

/// A declared function, with the vocabulary types of its parameters.
#[derive(Debug)]
pub enum ModItem {
    Fn {
        ident: String,
        /// Name, whether passed by reference, and type of each parameter.
        args: Vec<(String, bool, Type)>,
        output: Type,
        namespace: Option<Vec<String>>,
    },
}

/// An item of a bridge module, checked.
#[derive(Debug)]
pub enum ApiItem {
    ForeignMod { lang: Lang, items: Vec<ModItem> },
    Enum(EnumDef),
    Struct(StructDef),
    Type(String),
    Include(String),
    Other(Span),
}

/// A bridge module: its name and its items.
#[derive(Debug)]
pub struct Api {
    pub ident: String,
    pub api_items: Vec<ApiItem>,
}

pub open spec fn abi_lang(name: Seq<char>) -> Option<Lang> {
    if name == "OCaml"@ {
        Some(Lang::OCaml)
    } else if name == "Rust"@ {
        Some(Lang::Rust)
    } else {
        None
    }
}

fn error_at(span: Span, msg: &str) -> (e: Error)
    ensures
        e.span == span,
        e.message@ == msg@,
{
    Error { span, message: String::from_str(msg) }
}

impl Lang {
    /// The language that an ABI string names: `"OCaml"` or `"Rust"`.
    pub fn of_abi(abi: &Abi) -> (r: Result<Lang, Error>)
        ensures
            match abi.name {
                None => r matches Err(e) && e.span == abi.span && e.message@
                    == "no abi name provided"@,
                Some(name) => match abi_lang(name@) {
                    Some(l) => r == Ok::<Lang, Error>(l),
                    None => r matches Err(e) && e.span == abi.span && e.message@
                        == "unsupported abi name "@ + name@,
                },
            },
    {
        match &abi.name {
            None => Err(error_at(abi.span, "no abi name provided")),
            Some(name) => {
                if str_is(name.as_str(), "OCaml") {
                    Ok(Lang::OCaml)
                } else if str_is(name.as_str(), "Rust") {
                    Ok(Lang::Rust)
                } else {
                    let mut message = String::from_str("unsupported abi name ");
                    message.append(name.as_str());
                    Err(Error { span: abi.span, message })
                }
            },
        }
    }
}

/// Whether a written type is a reference.
pub open spec fn is_ref(t: SynType) -> bool {
    t.node is Reference
}

/// The first reason, in reading order, why the parameters from `i` on are
/// refused; `None` when they are all accepted.
pub open spec fn args_error(args: Seq<ArgSyntax>, i: int) -> Option<(Span, Seq<char>)>
    decreases args.len() - i,
{
    if i < 0 || i >= args.len() {
        None
    } else {
        let a = args[i];
        if a.is_self {
            Some((a.span, "self is not supported"@))
        } else if a.ident is None {
            Some((a.span, "only identifiers are supported"@))
        } else {
            match unsupported(a.ty) {
                Some(bad) => Some((bad.span, "unsupported type "@ + bad.text@)),
                None => args_error(args, i + 1),
            }
        }
    }
}

/// The first reason why a declared function is refused.
pub open spec fn fn_error(f: ForeignFnSyntax) -> Option<(Span, Seq<char>)> {
    match args_error(f.args@, 0) {
        Some(e) => Some(e),
        None => match f.output {
            None => None,
            Some(t) => match unsupported(t) {
                Some(bad) => Some((bad.span, "unsupported type "@ + bad.text@)),
                None => None,
            },
        },
    }
}

/// `m` is the checked form of the declared function `f`.
pub open spec fn fn_parsed(f: ForeignFnSyntax, m: ModItem) -> bool {
    match m {
        ModItem::Fn { ident, args, output, namespace } => {
            &&& ident@ == f.ident@
            &&& namespace == f.namespace
            &&& args.len() == f.args.len()
            &&& forall|i: int|
                0 <= i < args.len() ==> {
                    let (n, by_ref, t) = #[trigger] args@[i];
                    &&& f.args@[i].ident matches Some(id) && n@ == id@
                    &&& by_ref == is_ref(f.args@[i].ty)
                    &&& parsed_as(f.args@[i].ty, t)
                }
            &&& match f.output {
                None => output is Unit,
                Some(t) => parsed_as(t, output),
            }
        },
    }
}

/// Checks one declared function: its parameters must be plain identifiers
/// with supported types, and its return type supported.
pub fn parse_fn(f: ForeignFnSyntax) -> (r: Result<ModItem, Error>)
    ensures
        match r {
            Ok(m) => fn_error(f) is None && fn_parsed(f, m),
            Err(e) => fn_error(f) matches Some((span, msg)) && e.span == span && e.message@ == msg,
        },
{
    let args = &f.args;
    let mut parsed: Vec<(String, bool, Type)> = Vec::new();
    let mut i: usize = 0;
    while i < args.len()
        invariant
            args == f.args,
            i <= args.len(),
            parsed.len() == i,
            args_error(args@, 0) == args_error(args@, i as int),
            forall|j: int|
                0 <= j < i ==> {
                    let (n, by_ref, t) = #[trigger] parsed@[j];
                    &&& args@[j].ident matches Some(id) && n@ == id@
                    &&& by_ref == is_ref(args@[j].ty)
                    &&& parsed_as(args@[j].ty, t)
                },
        decreases args.len() - i,
    {
        let a = &args[i];
        assert(args_error(args@, i as int) == args_error(args@, 0));
        if a.is_self {
            assert(args_error(args@, i as int) == Some((a.span, "self is not supported"@)));
            return Err(error_at(a.span, "self is not supported"));
        }
        let name = match &a.ident {
            Some(n) => n.clone(),
            None => {
                return Err(error_at(a.span, "only identifiers are supported"));
            },
        };
        let t = match Type::parse_type(&a.ty) {
            Ok(t) => t,
            Err(e) => {
                return Err(e);
            },
        };
        let by_ref = match &a.ty.node {
            crate::types::SynNode::Reference(_) => true,
            _ => false,
        };
        parsed.push((name, by_ref, t));
        i = i + 1;
    }
    let out = match &f.output {
        None => Type::Unit,
        Some(t) => match Type::parse_type(t) {
            Ok(t) => t,
            Err(e) => {
                return Err(e);
            },
        },
    };
    let ForeignFnSyntax { ident, namespace, .. } = f;
    Ok(ModItem::Fn { ident, args: parsed, output: out, namespace })
}

/// The first reason why the fields from `i` on are refused; `msg` is the
/// report for a missing name where names are required.
pub open spec fn fields_error(fs: Seq<FieldDecl>, i: int, named: bool, msg: Seq<char>) -> Option<
    (Span, Seq<char>),
>
    decreases fs.len() - i,
{
    if i < 0 || i >= fs.len() {
        None
    } else {
        let f = fs[i];
        if named && f.ident is None {
            Some((f.span, msg))
        } else {
            match unsupported(f.ty) {
                Some(bad) => Some((bad.span, "unsupported type "@ + bad.text@)),
                None => fields_error(fs, i + 1, named, msg),
            }
        }
    }
}

/// `r` holds the name (empty where unnamed) and type of the field `f`.
pub open spec fn field_parsed(f: FieldDecl, named: bool, r: (String, Type)) -> bool {
    &&& (named ==> (f.ident matches Some(id) && r.0@ == id@))
    &&& (!named ==> r.0@ == Seq::<char>::empty())
    &&& parsed_as(f.ty, r.1)
}

/// `r` holds the names and types of the fields `fs`.
pub open spec fn fields_parsed(fs: Seq<FieldDecl>, named: bool, r: Seq<(String, Type)>) -> bool {
    &&& r.len() == fs.len()
    &&& forall|i: int| 0 <= i < r.len() ==> field_parsed(fs[i], named, #[trigger] r[i])
}

/// Checks the fields of a record or a variant.
fn parse_fields(fs: &Vec<FieldDecl>, named: bool, msg: &String) -> (r: Result<Vec<(String, Type)>, Error>)
    ensures
        match r {
            Ok(v) => fields_error(fs@, 0, named, msg@) is None && fields_parsed(fs@, named, v@),
            Err(e) => fields_error(fs@, 0, named, msg@) matches Some((span, m)) && e.span == span
                && e.message@ == m,
        },
{
    let mut out: Vec<(String, Type)> = Vec::new();
    let mut i: usize = 0;
    while i < fs.len()
        invariant
            i <= fs.len(),
            out.len() == i,
            fields_error(fs@, 0, named, msg@) == fields_error(fs@, i as int, named, msg@),
            forall|j: int| 0 <= j < i ==> field_parsed(fs@[j], named, #[trigger] out@[j]),
        decreases fs.len() - i,
    {
        let f = &fs[i];
        let name = match &f.ident {
            Some(id) => {
                if named {
                    id.clone()
                } else {
                    String::new()
                }
            },
            None => {
                if named {
                    return Err(Error { span: f.span, message: msg.clone() });
                }
                String::new()
            },
        };
        let t = match Type::parse_type(&f.ty) {
            Ok(t) => t,
            Err(e) => {
                return Err(e);
            },
        };
        let ghost entry = (name, t);
        out.push((name, t));
        assert(out@[i as int] == entry);
        assert(field_parsed(fs@[i as int], named, entry));
        i = i + 1;
    }
    Ok(out)
}

/// The first reason why the variants from `i` on are refused.
pub open spec fn variants_error(vs: Seq<VariantDecl>, i: int) -> Option<(Span, Seq<char>)>
    decreases vs.len() - i,
{
    if i < 0 || i >= vs.len() {
        None
    } else {
        match fields_error(
            vs[i].fields@,
            0,
            vs[i].named,
            "struct with unnamed field "@ + vs[i].ident@ + " in enum"@,
        ) {
            Some(e) => Some(e),
            None => variants_error(vs, i + 1),
        }
    }
}

pub open spec fn variant_parsed(v: VariantDecl, d: VariantDef) -> bool {
    d.ident@ == v.ident@ && d.named == v.named && fields_parsed(v.fields@, v.named, d.fields@)
}

/// Checks a record declaration: every field named, every type supported.
pub fn parse_struct(d: StructDecl) -> (r: Result<StructDef, Error>)
    ensures
        match r {
            Ok(s) => fields_error(d.fields@, 0, true, "struct with unnamed field "@ + d.ident@) is None
                && s.ident == d.ident && s.deriving == d.deriving && fields_parsed(d.fields@, true, s.fields@),
            Err(e) => fields_error(d.fields@, 0, true, "struct with unnamed field "@ + d.ident@) matches Some((span, m))
                && e.span == span && e.message@ == m,
        },
{
    let mut msg = String::from_str("struct with unnamed field ");
    msg.append(d.ident.as_str());
    match parse_fields(&d.fields, true, &msg) {
        Ok(fields) => {
            let StructDecl { ident, deriving, .. } = d;
            Ok(StructDef { ident, deriving, fields })
        },
        Err(e) => Err(e),
    }
}

/// Checks a tagged-union declaration: the fields of every variant.
pub fn parse_enum(d: EnumDecl) -> (r: Result<EnumDef, Error>)
    ensures
        match r {
            Ok(s) => variants_error(d.variants@, 0) is None && s.ident == d.ident && s.deriving
                == d.deriving && s.variants.len() == d.variants.len() && forall|i: int|
                0 <= i < s.variants.len() ==> variant_parsed(d.variants@[i], #[trigger] s.variants@[i]),
            Err(e) => variants_error(d.variants@, 0) matches Some((span, m)) && e.span == span
                && e.message@ == m,
        },
{
    let mut out: Vec<VariantDef> = Vec::new();
    let mut i: usize = 0;
    while i < d.variants.len()
        invariant
            i <= d.variants.len(),
            out.len() == i,
            variants_error(d.variants@, 0) == variants_error(d.variants@, i as int),
            forall|j: int| 0 <= j < i ==> variant_parsed(d.variants@[j], #[trigger] out@[j]),
        decreases d.variants.len() - i,
    {
        let v = &d.variants[i];
        let mut msg = String::from_str("struct with unnamed field ");
        msg.append(v.ident.as_str());
        msg.append(" in enum");
        match parse_fields(&v.fields, v.named, &msg) {
            Ok(fields) => {
                out.push(VariantDef { ident: v.ident.clone(), named: v.named, fields });
            },
            Err(e) => {
                return Err(e);
            },
        }
        i = i + 1;
    }
    let EnumDecl { ident, deriving, .. } = d;
    Ok(EnumDef { ident, deriving, variants: out })
}

/// The first reason why the items of an `extern` block from `i` on are
/// refused.
pub open spec fn items_error(items: Seq<ForeignItemSyntax>, i: int) -> Option<(Span, Seq<char>)>
    decreases items.len() - i,
{
    if i < 0 || i >= items.len() {
        None
    } else {
        match items[i] {
            ForeignItemSyntax::Fn(f) => match fn_error(f) {
                Some(e) => Some(e),
                None => items_error(items, i + 1),
            },
            ForeignItemSyntax::Other(span) => Some((span, "unsupported in extern mod"@)),
        }
    }
}

/// The first reason why an item of a bridge module is refused.
pub open spec fn item_error(item: ItemSyntax) -> Option<(Span, Seq<char>)> {
    match item {
        ItemSyntax::ForeignMod { abi, items } => match items_error(items@, 0) {
            Some(e) => Some(e),
            None => match abi.name {
                None => Some((abi.span, "no abi name provided"@)),
                Some(name) => if abi_lang(name@) is None {
                    Some((abi.span, "unsupported abi name "@ + name@))
                } else {
                    None
                },
            },
        },
        ItemSyntax::Struct(d) => fields_error(
            d.fields@,
            0,
            true,
            "struct with unnamed field "@ + d.ident@,
        ),
        ItemSyntax::Enum(d) => variants_error(d.variants@, 0),
        _ => None,
    }
}

/// `m` is the checked form of the accepted `extern` block item `it`.
pub open spec fn foreign_parsed(it: ForeignItemSyntax, m: ModItem) -> bool {
    match it {
        ForeignItemSyntax::Fn(f) => fn_parsed(f, m),
        ForeignItemSyntax::Other(_) => false,
    }
}

/// `r` is the checked form of the accepted item `item`.
pub open spec fn item_parsed(item: ItemSyntax, r: ApiItem) -> bool {
    match item {
        ItemSyntax::Include(t) => r == ApiItem::Include(t),
        ItemSyntax::Struct(d) => r matches ApiItem::Struct(s) && s.ident == d.ident && s.deriving
            == d.deriving && fields_parsed(d.fields@, true, s.fields@),
        ItemSyntax::Enum(d) => r matches ApiItem::Enum(s) && s.ident == d.ident && s.deriving
            == d.deriving && s.variants.len() == d.variants.len() && forall|i: int|
            0 <= i < s.variants.len() ==> variant_parsed(d.variants@[i], #[trigger] s.variants@[i]),
        ItemSyntax::Type(n) => r == ApiItem::Type(n),
        ItemSyntax::Other(span) => r == ApiItem::Other(span),
        ItemSyntax::ForeignMod { abi, items } => r matches ApiItem::ForeignMod { lang, items: ms }
            && Some(lang) == abi_lang(abi.name->0@) && ms.len() == items.len() && forall|i: int|
            0 <= i < ms.len() ==> foreign_parsed(items@[i], #[trigger] ms@[i]),
    }
}

impl ApiItem {
    /// Checks one item of a bridge module. Functions in `extern` blocks are
    /// checked one by one, then the block's language.
    pub fn parse(item: ItemSyntax) -> (r: Result<ApiItem, Error>)
        ensures
            match r {
                Ok(a) => item_error(item) is None && item_parsed(item, a),
                Err(e) => item_error(item) matches Some((span, msg)) && e.span == span
                    && e.message@ == msg,
            },
    {
        match item {
            ItemSyntax::Include(t) => Ok(ApiItem::Include(t)),
            ItemSyntax::Struct(d) => match parse_struct(d) {
                Ok(s) => Ok(ApiItem::Struct(s)),
                Err(e) => Err(e),
            },
            ItemSyntax::Enum(d) => match parse_enum(d) {
                Ok(s) => Ok(ApiItem::Enum(s)),
                Err(e) => Err(e),
            },
            ItemSyntax::Type(n) => Ok(ApiItem::Type(n)),
            ItemSyntax::Other(span) => Ok(ApiItem::Other(span)),
            ItemSyntax::ForeignMod { abi, items } => {
                let ghost orig = items@;
                let mut items = items;
                let mut parsed: Vec<ModItem> = Vec::new();
                let ghost n = orig.len();
                while items.len() > 0
                    invariant
                        item matches ItemSyntax::ForeignMod { abi: a0, items: i0 } && a0 == abi
                            && i0@ == orig,
                        parsed.len() + items.len() == n,
                        n == orig.len(),
                        items@ == orig.subrange(parsed.len() as int, n as int),
                        items_error(orig, 0) == items_error(orig, parsed.len() as int),
                        forall|i: int|
                            0 <= i < parsed.len() ==> foreign_parsed(orig[i], #[trigger] parsed@[i]),
                    decreases items.len(),
                {
                    let k = parsed.len();
                    let it = items.remove(0);
                    assert(it == orig[k as int]);
                    match it {
                        ForeignItemSyntax::Fn(f) => match parse_fn(f) {
                            Ok(m) => {
                                let ghost gm = m;
                                parsed.push(m);
                                assert(parsed@[k as int] == gm);
                                assert(foreign_parsed(orig[k as int], gm));
                            },
                            Err(e) => {
                                return Err(e);
                            },
                        },
                        ForeignItemSyntax::Other(span) => {
                            return Err(error_at(span, "unsupported in extern mod"));
                        },
                    }
                    assert(items@ =~= orig.subrange(parsed.len() as int, n as int));
                }
                let lang = match Lang::of_abi(&abi) {
                    Ok(l) => l,
                    Err(e) => {
                        return Err(e);
                    },
                };
                assert(items_error(orig, n as int) is None);
                Ok(ApiItem::ForeignMod { lang, items: parsed })
            },
        }
    }
}

/// The first reason why the items of a bridge module from `i` on are refused.
pub open spec fn api_error(items: Seq<ItemSyntax>, i: int) -> Option<(Span, Seq<char>)>
    decreases items.len() - i,
{
    if i < 0 || i >= items.len() {
        None
    } else {
        match item_error(items[i]) {
            Some(e) => Some(e),
            None => api_error(items, i + 1),
        }
    }
}

/// The names of a namespace path joined by `_`.
pub open spec fn join_names(ns: Seq<String>) -> Seq<char>
    decreases ns.len(),
{
    if ns.len() == 0 {
        Seq::empty()
    } else if ns.len() == 1 {
        ns[0]@
    } else {
        join_names(ns.drop_last()) + "_"@ + ns.last()@
    }
}

/// The link name of a function: the module name, the namespace path and the
/// function name, in one symbol.
pub open spec fn c_fn_name_spec(api: Seq<char>, ident: Seq<char>, ns: Option<Vec<String>>) -> Seq<
    char,
> {
    let ns_part = match ns {
        None => Seq::empty(),
        Some(v) => join_names(v@) + "_"@,
    };
    "__ocaml_"@ + api + ns_part + "_"@ + ident
}

fn join_underscore(ns: &Vec<String>) -> (r: String)
    ensures
        r@ == join_names(ns@),
{
    let mut r = String::new();
    let mut i: usize = 0;
    while i < ns.len()
        invariant
            i <= ns.len(),
            r@ == join_names(ns@.subrange(0, i as int)),
        decreases ns.len() - i,
    {
        let ghost next = ns@.subrange(0, i + 1);
        assert(next.drop_last() =~= ns@.subrange(0, i as int));
        if i > 0 {
            r.append("_");
        } else {
            assert(r@ == Seq::<char>::empty());
            assert(Seq::<char>::empty() + ns@[0]@ =~= ns@[0]@);
        }
        r.append(ns[i].as_str());
        i = i + 1;
    }
    assert(ns@.subrange(0, ns.len() as int) =~= ns@);
    r
}

/// The link name of function `ident` of module `api`, under an optional
/// namespace path.
pub fn mangle(api: &String, ident: &String, namespace: &Option<Vec<String>>) -> (r: String)
    ensures
        r@ == c_fn_name_spec(api@, ident@, *namespace),
{
    let mut r = String::from_str("__ocaml_");
    r.append(api.as_str());
    match namespace {
        None => {},
        Some(ns) => {
            let j = join_underscore(ns);
            r.append(j.as_str());
            r.append("_");
        },
    }
    r.append("_");
    r.append(ident.as_str());
    proof {
        if namespace is None {
            assert("__ocaml_"@ + api@ + Seq::<char>::empty() =~= "__ocaml_"@ + api@);
        }
    }
    r
}

impl Api {
    /// Checks every item of a bridge module named `ident`; the first refusal
    /// ends the check.
    pub fn parse(ident: String, items: Vec<ItemSyntax>) -> (r: Result<Api, Error>)
        ensures
            match r {
                Ok(api) => api_error(items@, 0) is None && api.ident == ident && api.api_items.len()
                    == items.len() && forall|i: int|
                    0 <= i < items.len() ==> item_parsed(items@[i], #[trigger] api.api_items@[i]),
                Err(e) => api_error(items@, 0) matches Some((span, m)) && e.span == span
                    && e.message@ == m,
            },
    {
        let ghost orig = items@;
        let ghost n = orig.len();
        let mut rest = items;
        let mut parsed: Vec<ApiItem> = Vec::new();
        while rest.len() > 0
            invariant
                parsed.len() + rest.len() == n,
                orig == items@,
                n == orig.len(),
                rest@ == orig.subrange(parsed.len() as int, n as int),
                api_error(orig, 0) == api_error(orig, parsed.len() as int),
                forall|i: int| 0 <= i < parsed.len() ==> item_parsed(orig[i], #[trigger] parsed@[i]),
            decreases rest.len(),
        {
            let k = parsed.len();
            let it = rest.remove(0);
            assert(it == orig[k as int]);
            match ApiItem::parse(it) {
                Ok(a) => {
                    let ghost ga = a;
                    parsed.push(a);
                    assert(parsed@[k as int] == ga);
                },
                Err(e) => {
                    assert(api_error(orig, k as int) == item_error(orig[k as int]));
                    return Err(e);
                },
            }
            assert(rest@ =~= orig.subrange(parsed.len() as int, n as int));
        }
        Ok(Api { ident, api_items: parsed })
    }

    /// The link name of the function `ident` of this module, under an
    /// optional namespace path.
    pub fn c_fn_name(&self, ident: &String, namespace: &Option<Vec<String>>) -> (r: String)
        ensures
            r@ == c_fn_name_spec(self.ident@, ident@, *namespace),
    {
        mangle(&self.ident, ident, namespace)
    }


    /// The names of the abstract types of this module, each once, in
    /// increasing order.
    pub fn abstract_types(&self) -> (r: Vec<String>)
        ensures
            strictly_sorted(r@.map_values(|s: String| s@)),
            forall|n: Seq<char>|
                r@.map_values(|s: String| s@).contains(n) <==> #[trigger] type_names(
                    self.api_items@,
                ).contains(n),
    {
        let ghost items = self.api_items@;
        let mut r: Vec<String> = Vec::new();
        let mut i: usize = 0;
        while i < self.api_items.len()
            invariant
                items == self.api_items@,
                i <= items.len(),
                strictly_sorted(r@.map_values(|s: String| s@)),
                forall|n: Seq<char>|
                    r@.map_values(|s: String| s@).contains(n) <==> #[trigger] type_names(
                        items.subrange(0, i as int),
                    ).contains(n),
            decreases items.len() - i,
        {
            let ghost before = r@.map_values(|s: String| s@);
            let ghost next = items.subrange(0, i + 1);
            assert forall|n: Seq<char>| #[trigger] type_names(next).contains(n) <==> (type_names(
                items.subrange(0, i as int),
            ).contains(n) || names_type(items[i as int], n)) by {
                if type_names(next).contains(n) {
                    let j = choose|j: int|
                        0 <= j < next.len() && names_type(next[j], n);
                    if j < i {
                        assert(items.subrange(0, i as int)[j] == next[j]);
                    }
                }
                if type_names(items.subrange(0, i as int)).contains(n) {
                    let j = choose|j: int|
                        0 <= j < i && names_type(items.subrange(0, i as int)[j], n);
                    assert(next[j] == items.subrange(0, i as int)[j]);
                }
                if names_type(items[i as int], n) {
                    assert(next[i as int] == items[i as int]);
                }
            }
            match &self.api_items[i] {
                ApiItem::Type(name) => {
                    let mut k: usize = 0;
                    while k < r.len() && text_less(&r[k], name)
                        invariant
                            k <= r.len(),
                            before == r@.map_values(|s: String| s@),
                            forall|q: int| 0 <= q < k ==> text_lt(#[trigger] before[q], name@),
                        decreases r.len() - k,
                    {
                        k = k + 1;
                    }
                    if k < r.len() && str_is(r[k].as_str(), name.as_str()) {
                        assert(before[k as int] == name@);
                    } else {
                        let ghost nm = name@;
                        proof {
                            if k < r.len() {
                                lemma_text_lt_total(before[k as int], nm);
                            }
                        }
                        r.insert(k, name.clone());
                        let ghost after = r@.map_values(|s: String| s@);
                        assert(after =~= before.insert(k as int, nm));
                        assert forall|p: int, q: int|
                            0 <= p < q < after.len() implies text_lt(
                                #[trigger] after[p],
                                #[trigger] after[q],
                            ) by {
                            if q < k {
                            } else if q == k {
                            } else if p == k {
                                if q - 1 > k {
                                    lemma_text_lt_trans(nm, before[k as int], before[q - 1]);
                                }
                            } else if p < k {
                                if q - 1 > k {
                                    lemma_text_lt_trans(nm, before[k as int], before[q - 1]);
                                }
                                if q - 1 >= k {
                                    lemma_text_lt_trans(before[p], nm, before[q - 1]);
                                }
                            }
                        }
                        assert forall|n: Seq<char>| #[trigger] after.contains(n) <==> (before.contains(n)
                            || n == nm) by {
                            if after.contains(n) {
                                let q = choose|q: int| 0 <= q < after.len() && after[q] == n;
                                if q < k {
                                    assert(before[q] == n);
                                } else if q > k {
                                    assert(before[q - 1] == n);
                                }
                            }
                            if before.contains(n) {
                                let q = choose|q: int| 0 <= q < before.len() && before[q] == n;
                                if q < k {
                                    assert(after[q] == n);
                                } else {
                                    assert(after[q + 1] == n);
                                }
                            }
                            if n == nm {
                                assert(after[k as int] == n);
                            }
                        }
                    }
                },
                _ => {},
            }
            i = i + 1;
        }
        assert(items.subrange(0, items.len() as int) =~= items);
        r
    }
}

/// `it` declares the abstract type `n`.
pub open spec fn names_type(it: ApiItem, n: Seq<char>) -> bool {
    match it {
        ApiItem::Type(t) => t@ == n,
        _ => false,
    }
}

/// The names of the abstract types among `items`.
pub open spec fn type_names(items: Seq<ApiItem>) -> Set<Seq<char>> {
    Set::new(
        |n: Seq<char>| exists|j: int| 0 <= j < items.len() && #[trigger] names_type(items[j], n),
    )
}

/// Each text is below every later one, so none appears twice.
pub open spec fn strictly_sorted(v: Seq<Seq<char>>) -> bool {
    forall|p: int, q: int| 0 <= p < q < v.len() ==> text_lt(#[trigger] v[p], #[trigger] v[q])
}

} // verus!
