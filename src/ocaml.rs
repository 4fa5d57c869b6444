use vstd::prelude::*;
use vstd::string::{StringExecFns, StrSliceExecFns};
use crate::api::{Api, ApiItem, EnumDef, Lang, ModItem, StructDef, VariantDef, c_fn_name_spec, mangle};
use crate::text::{ocamlize, ocamlize_spec, push_char, text_lt, text_less};
use crate::types::{Type, render, renderable};

verus! {

broadcast use vstd::std_specs::vec::group_vec_axioms;

/// The upper-case form of a character, which may be several characters.
pub uninterp spec fn upper_of(c: char) -> Seq<char>;

/// Relies on `char::to_uppercase`: the Unicode upper-case mapping of one
/// character, which depends on the character alone.
#[verifier::external_body]
fn char_to_upper(c: char) -> (r: String)
    ensures
        r@ == upper_of(c),
{
    c.to_uppercase().collect()
}

/// The text with its first character in upper case.
pub open spec fn capitalize_spec(s: Seq<char>) -> Seq<char> {
    if s.len() == 0 {
        Seq::empty()
    } else {
        upper_of(s[0]) + s.drop_first()
    }
}

/// The text with its first character in upper case.
pub fn capitalize(s: &str) -> (r: String)
    ensures
        r@ == capitalize_spec(s@),
{
    let n = s.unicode_len();
    if n == 0 {
        return String::new();
    }
    let mut r = char_to_upper(s.get_char(0));
    let mut i: usize = 1;
    while i < n
        invariant
            n == s@.len(),
            1 <= i <= n,
            r@ == upper_of(s@[0]) + s@.subrange(1, i as int),
        decreases n - i,
    {
        push_char(&mut r, s.get_char(i));
        assert(s@.subrange(1, i + 1) =~= s@.subrange(1, i as int).push(s@[i as int]));
        i = i + 1;
    }
    assert(s@.subrange(1, n as int) =~= s@.drop_first());
    r
}

/// `parts` separated by `sep`.
pub open spec fn join_sep(parts: Seq<Seq<char>>, sep: Seq<char>) -> Seq<char>
    decreases parts.len(),
{
    if parts.len() == 0 {
        Seq::empty()
    } else if parts.len() == 1 {
        parts[0]
    } else {
        join_sep(parts.drop_last(), sep) + sep + parts.last()
    }
}

/// `parts` one after the other.
pub open spec fn concat(parts: Seq<Seq<char>>) -> Seq<char>
    decreases parts.len(),
{
    if parts.len() == 0 {
        Seq::empty()
    } else {
        concat(parts.drop_last()) + parts.last()
    }
}

pub open spec fn views(v: Seq<String>) -> Seq<Seq<char>> {
    Seq::new(v.len(), |i: int| v[i]@)
}

/// Joins `parts` with `sep` between them.
fn join(parts: &Vec<String>, sep: &str) -> (r: String)
    ensures
        r@ == join_sep(views(parts@), sep@),
{
    let mut r = String::new();
    let mut i: usize = 0;
    while i < parts.len()
        invariant
            i <= parts.len(),
            r@ == join_sep(views(parts@.subrange(0, i as int)), sep@),
        decreases parts.len() - i,
    {
        let ghost next = views(parts@.subrange(0, i + 1));
        assert(next.drop_last() =~= views(parts@.subrange(0, i as int)));
        if i > 0 {
            r.append(sep);
        } else {
            assert(Seq::<char>::empty() + parts@[0]@ =~= parts@[0]@);
        }
        r.append(parts[i].as_str());
        i = i + 1;
    }
    assert(parts@.subrange(0, parts.len() as int) =~= parts@);
    r
}

/// The `[@@deriving ...]` annotation for the given names; empty for none.
pub open spec fn deriving_text(ds: Seq<String>) -> Seq<char> {
    if ds.len() == 0 {
        Seq::empty()
    } else {
        "[@@deriving "@ + join_sep(views(ds), ","@) + "]"@
    }
}

/// The host-side annotation that asks for the derived behaviours `ds`.
pub fn ocaml_deriving(ds: &Vec<String>) -> (r: String)
    ensures
        r@ == deriving_text(ds@),
{
    if ds.len() == 0 {
        String::new()
    } else {
        let mut r = String::from_str("[@@deriving ");
        let j = join(ds, ",");
        r.append(j.as_str());
        r.append("]");
        r
    }
}

/// `name: type`, as a record field is written on the host side.
pub open spec fn field_text(f: (String, Type)) -> Seq<char> {
    f.0@ + ": "@ + render(f.1)
}

pub open spec fn fields_renderable(fs: Seq<(String, Type)>) -> bool {
    forall|i: int| 0 <= i < fs.len() ==> renderable(#[trigger] fs[i].1)
}

/// What follows a constructor's name: nothing, ` of a * b`, or
/// ` of { x: a; y: b }`.
pub open spec fn variant_args_text(v: VariantDef) -> Seq<char> {
    let n = v.fields@.len();
    if v.named {
        " of { "@ + join_sep(Seq::new(n, |i: int| field_text(v.fields@[i])), "; "@) + " }"@
    } else if n == 0 {
        Seq::empty()
    } else {
        " of "@ + join_sep(Seq::new(n, |i: int| render(v.fields@[i].1)), " * "@)
    }
}

pub open spec fn variant_line(v: VariantDef) -> Seq<char> {
    "  | "@ + capitalize_spec(v.ident@) + variant_args_text(v) + "\n"@
}

/// The host-side declaration of a tagged union.
pub open spec fn enum_text(e: EnumDef) -> Seq<char> {
    "  type "@ + ocamlize_spec(e.ident@) + " =\n"@ + concat(
        Seq::new(e.variants@.len(), |i: int| variant_line(e.variants@[i])),
    ) + "  [@@boxed]"@ + deriving_text(e.deriving@) + ";;\n"@
}

pub open spec fn struct_field_line(f: (String, Type)) -> Seq<char> {
    "    "@ + field_text(f) + ";\n"@
}

/// The host-side declaration of a record.
pub open spec fn struct_text(s: StructDef) -> Seq<char> {
    "  type "@ + ocamlize_spec(s.ident@) + " = {\n"@ + concat(
        Seq::new(s.fields@.len(), |i: int| struct_field_line(s.fields@[i])),
    ) + "  } [@@boxed]"@ + deriving_text(s.deriving@) + ";;\n"@
}

pub open spec fn enum_renderable(e: EnumDef) -> bool {
    forall|i: int| 0 <= i < e.variants@.len() ==> fields_renderable(#[trigger] e.variants@[i].fields@)
}

fn field_string(f: &(String, Type)) -> (r: String)
    requires
        renderable(f.1),
    ensures
        r@ == field_text(*f),
{
    let mut r = f.0.clone();
    r.append(": ");
    let t = f.1.to_ocaml_string();
    r.append(t.as_str());
    r
}

fn variant_args_string(v: &VariantDef) -> (r: String)
    requires
        fields_renderable(v.fields@),
    ensures
        r@ == variant_args_text(*v),
{
    let n = v.fields.len();
    let mut parts: Vec<String> = Vec::new();
    let mut i: usize = 0;
    while i < n
        invariant
            n == v.fields@.len(),
            fields_renderable(v.fields@),
            i <= n,
            parts.len() == i,
            forall|j: int|
                0 <= j < i ==> (#[trigger] parts@[j])@ == if v.named {
                    field_text(v.fields@[j])
                } else {
                    render(v.fields@[j].1)
                },
        decreases n - i,
    {
        assert(renderable(v.fields@[i as int].1));
        let p = if v.named {
            field_string(&v.fields[i])
        } else {
            v.fields[i].1.to_ocaml_string()
        };
        parts.push(p);
        i = i + 1;
    }
    if v.named {
        assert(views(parts@) =~= Seq::new(n as nat, |i: int| field_text(v.fields@[i])));
        let mut r = String::from_str(" of { ");
        let j = join(&parts, "; ");
        r.append(j.as_str());
        r.append(" }");
        r
    } else if n == 0 {
        String::new()
    } else {
        assert(views(parts@) =~= Seq::new(n as nat, |i: int| render(v.fields@[i].1)));
        let mut r = String::from_str(" of ");
        let j = join(&parts, " * ");
        r.append(j.as_str());
        r
    }
}

/// The host-side declaration of a tagged union.
pub fn enum_string(e: &EnumDef) -> (r: String)
    requires
        enum_renderable(*e),
    ensures
        r@ == enum_text(*e),
{
    let mut r = String::from_str("  type ");
    let name = ocamlize(e.ident.as_str());
    r.append(name.as_str());
    r.append(" =\n");
    let ghost head = r@;
    let ghost lines = Seq::new(e.variants@.len(), |i: int| variant_line(e.variants@[i]));
    let mut i: usize = 0;
    while i < e.variants.len()
        invariant
            enum_renderable(*e),
            lines == Seq::new(e.variants@.len(), |i: int| variant_line(e.variants@[i])),
            i <= e.variants.len(),
            r@ == head + concat(lines.subrange(0, i as int)),
        decreases e.variants.len() - i,
    {
        let v = &e.variants[i];
        assert(fields_renderable(e.variants@[i as int].fields@));
        r.append("  | ");
        let c = capitalize(v.ident.as_str());
        r.append(c.as_str());
        let a = variant_args_string(v);
        r.append(a.as_str());
        r.append("\n");
        assert(lines.subrange(0, i + 1).drop_last() =~= lines.subrange(0, i as int));
        i = i + 1;
    }
    assert(lines.subrange(0, e.variants.len() as int) =~= lines);
    r.append("  [@@boxed]");
    let d = ocaml_deriving(&e.deriving);
    r.append(d.as_str());
    r.append(";;\n");
    r
}

/// The host-side declaration of a record.
pub fn struct_string(s: &StructDef) -> (r: String)
    requires
        fields_renderable(s.fields@),
    ensures
        r@ == struct_text(*s),
{
    let mut r = String::from_str("  type ");
    let name = ocamlize(s.ident.as_str());
    r.append(name.as_str());
    r.append(" = {\n");
    let ghost head = r@;
    let ghost lines = Seq::new(s.fields@.len(), |i: int| struct_field_line(s.fields@[i]));
    let mut i: usize = 0;
    while i < s.fields.len()
        invariant
            fields_renderable(s.fields@),
            lines == Seq::new(s.fields@.len(), |i: int| struct_field_line(s.fields@[i])),
            i <= s.fields.len(),
            r@ == head + concat(lines.subrange(0, i as int)),
        decreases s.fields.len() - i,
    {
        assert(renderable(s.fields@[i as int].1));
        r.append("    ");
        let f = field_string(&s.fields[i]);
        r.append(f.as_str());
        r.append(";\n");
        assert(lines.subrange(0, i + 1).drop_last() =~= lines.subrange(0, i as int));
        i = i + 1;
    }
    assert(lines.subrange(0, s.fields.len() as int) =~= lines);
    r.append("  } [@@boxed]");
    let d = ocaml_deriving(&s.deriving);
    r.append(d.as_str());
    r.append(";;\n");
    r
}

pub open spec fn arg_types_text(args: Seq<(String, bool, Type)>) -> Seq<char> {
    if args.len() == 0 {
        "unit"@
    } else {
        join_sep(Seq::new(args.len(), |i: int| render(args[i].2)), " -> "@)
    }
}

/// The host-side foreign declaration of a function of module `api`.
pub open spec fn fn_text(api: Seq<char>, m: ModItem) -> Seq<char> {
    match m {
        ModItem::Fn { ident, args, output, namespace } => "  external "@ + ident@ + "\n    : "@
            + arg_types_text(args@) + " -> "@ + render(output) + "\n    = \""@ + c_fn_name_spec(
            api,
            ident@,
            namespace,
        ) + "\"\n  ;;\n\n"@,
    }
}

pub open spec fn fn_renderable(m: ModItem) -> bool {
    match m {
        ModItem::Fn { args, output, .. } => renderable(output) && forall|i: int|
            0 <= i < args.len() ==> renderable(#[trigger] args@[i].2),
    }
}

/// The namespace path of a function; empty when it has none.
pub open spec fn path(m: ModItem) -> Seq<String> {
    match m {
        ModItem::Fn { namespace, .. } => match namespace {
            None => Seq::empty(),
            Some(v) => v@,
        },
    }
}

/// The component of the namespace path of function `i` at `depth`.
pub open spec fn key(fns: Seq<ModItem>, i: int, depth: nat) -> Seq<char> {
    path(fns[i])[depth as int]@
}

/// The functions among `idx` whose path ends at `depth` (`here`) or goes
/// deeper (`!here`), in order.
pub open spec fn at_depth(fns: Seq<ModItem>, idx: Seq<usize>, depth: nat, here: bool) -> Seq<usize>
    decreases idx.len(),
{
    if idx.len() == 0 {
        Seq::empty()
    } else {
        let rest = at_depth(fns, idx.drop_last(), depth, here);
        if (path(fns[idx.last() as int]).len() <= depth) == here {
            rest.push(idx.last())
        } else {
            rest
        }
    }
}

/// The functions among `idx` whose path component at `depth` is (`same`) or
/// is not (`!same`) `k`, in order.
pub open spec fn with_key(fns: Seq<ModItem>, idx: Seq<usize>, depth: nat, k: Seq<char>, same: bool) -> Seq<
    usize,
>
    decreases idx.len(),
{
    if idx.len() == 0 {
        Seq::empty()
    } else {
        let rest = with_key(fns, idx.drop_last(), depth, k, same);
        if (key(fns, idx.last() as int, depth) == k) == same {
            rest.push(idx.last())
        } else {
            rest
        }
    }
}

/// The least path component at `depth` among `idx`.
pub open spec fn min_key(fns: Seq<ModItem>, idx: Seq<usize>, depth: nat) -> Seq<char>
    decreases idx.len(),
{
    if idx.len() <= 1 {
        key(fns, idx[0] as int, depth)
    } else {
        let a = min_key(fns, idx.drop_last(), depth);
        let b = key(fns, idx.last() as int, depth);
        if text_lt(b, a) {
            b
        } else {
            a
        }
    }
}

/// The declarations of the functions `idx`, nested in one host module per
/// namespace component below `depth`: first the functions whose path ends
/// here, in order, then one module per component, by increasing name.
pub open spec fn scope_text(api: Seq<char>, fns: Seq<ModItem>, idx: Seq<usize>, depth: nat, bound: nat) -> Seq<
    char,
>
    decreases bound - depth, idx.len() + 1,
{
    let here = at_depth(fns, idx, depth, true);
    let deeper = at_depth(fns, idx, depth, false);
    concat(Seq::new(here.len(), |i: int| fn_text(api, fns[here[i] as int]))) + if deeper.len()
        <= idx.len() {
        groups_text(api, fns, deeper, depth, bound)
    } else {
        Seq::empty()
    }
}

/// The host modules for the functions `idx`, whose paths go below `depth`.
pub open spec fn groups_text(api: Seq<char>, fns: Seq<ModItem>, idx: Seq<usize>, depth: nat, bound: nat) -> Seq<
    char,
>
    decreases bound - depth, idx.len(),
{
    if idx.len() == 0 || depth >= bound {
        Seq::empty()
    } else {
        let k = min_key(fns, idx, depth);
        let same = with_key(fns, idx, depth, k, true);
        let rest = with_key(fns, idx, depth, k, false);
        "module "@ + capitalize_spec(k) + " = struct\n"@ + scope_text(
            api,
            fns,
            same,
            depth + 1,
            bound,
        ) + "end\n"@ + if rest.len() < idx.len() {
            groups_text(api, fns, rest, depth, bound)
        } else {
            Seq::empty()
        }
    }
}

fn arg_types_string(args: &Vec<(String, bool, Type)>) -> (r: String)
    requires
        forall|i: int| 0 <= i < args.len() ==> renderable(#[trigger] args@[i].2),
    ensures
        r@ == arg_types_text(args@),
{
    if args.len() == 0 {
        return String::from_str("unit");
    }
    let mut parts: Vec<String> = Vec::new();
    let mut i: usize = 0;
    while i < args.len()
        invariant
            forall|i: int| 0 <= i < args.len() ==> renderable(#[trigger] args@[i].2),
            i <= args.len(),
            parts.len() == i,
            forall|j: int| 0 <= j < i ==> (#[trigger] parts@[j])@ == render(args@[j].2),
        decreases args.len() - i,
    {
        let t = args[i].2.to_ocaml_string();
        parts.push(t);
        i = i + 1;
    }
    assert(views(parts@) =~= Seq::new(args@.len(), |i: int| render(args@[i].2)));
    join(&parts, " -> ")
}

/// The host-side foreign declaration of a function of module `api`.
pub fn fn_string(api: &String, m: &ModItem) -> (r: String)
    requires
        fn_renderable(*m),
    ensures
        r@ == fn_text(api@, *m),
{
    match m {
        ModItem::Fn { ident, args, output, namespace } => {
            let mut r = String::from_str("  external ");
            r.append(ident.as_str());
            r.append("\n    : ");
            let a = arg_types_string(args);
            r.append(a.as_str());
            r.append(" -> ");
            let o = output.to_ocaml_string();
            r.append(o.as_str());
            r.append("\n    = \"");
            let c = mangle(api, ident, namespace);
            r.append(c.as_str());
            r.append("\"\n  ;;\n\n");
            r
        },
    }
}

fn path_len(m: &ModItem) -> (r: usize)
    ensures
        r == path(*m).len(),
{
    match m {
        ModItem::Fn { namespace, .. } => match namespace {
            None => 0,
            Some(v) => v.len(),
        },
    }
}

fn key_of(m: &ModItem, depth: usize) -> (r: String)
    requires
        depth < path(*m).len(),
    ensures
        r@ == path(*m)[depth as int]@,
{
    match m {
        ModItem::Fn { namespace, .. } => match namespace {
            Some(v) => v[depth].clone(),
            None => String::new(),
        },
    }
}

/// Every index names a function, whose path is at most `bound` long.
pub open spec fn valid_idx(fns: Seq<ModItem>, idx: Seq<usize>, bound: nat) -> bool {
    forall|i: int|
        0 <= i < idx.len() ==> #[trigger] idx[i] < fns.len() && path(fns[idx[i] as int]).len()
            <= bound
}

pub open spec fn all_below(fns: Seq<ModItem>, idx: Seq<usize>, depth: nat) -> bool {
    forall|i: int| 0 <= i < idx.len() ==> path(fns[#[trigger] idx[i] as int]).len() > depth
}

pub open spec fn fns_renderable(fns: Seq<ModItem>) -> bool {
    forall|i: int| 0 <= i < fns.len() ==> fn_renderable(#[trigger] fns[i])
}

proof fn lemma_at_depth(fns: Seq<ModItem>, idx: Seq<usize>, depth: nat, bound: nat)
    requires
        valid_idx(fns, idx, bound),
    ensures
        at_depth(fns, idx, depth, true).len() + at_depth(fns, idx, depth, false).len() == idx.len(),
        valid_idx(fns, at_depth(fns, idx, depth, true), bound),
        valid_idx(fns, at_depth(fns, idx, depth, false), bound),
        all_below(fns, at_depth(fns, idx, depth, false), depth),
    decreases idx.len(),
{
    if idx.len() > 0 {
        let init = idx.drop_last();
        assert forall|i: int| 0 <= i < init.len() implies #[trigger] init[i] < fns.len() && path(
            fns[init[i] as int],
        ).len() <= bound by {
            assert(init[i] == idx[i]);
        }
        lemma_at_depth(fns, init, depth, bound);
        assert(idx.last() == idx[idx.len() - 1]);
    }
}

proof fn lemma_with_key(fns: Seq<ModItem>, idx: Seq<usize>, depth: nat, k: Seq<char>, bound: nat)
    requires
        valid_idx(fns, idx, bound),
        all_below(fns, idx, depth),
    ensures
        with_key(fns, idx, depth, k, true).len() + with_key(fns, idx, depth, k, false).len()
            == idx.len(),
        valid_idx(fns, with_key(fns, idx, depth, k, true), bound),
        valid_idx(fns, with_key(fns, idx, depth, k, false), bound),
        all_below(fns, with_key(fns, idx, depth, k, true), depth),
        all_below(fns, with_key(fns, idx, depth, k, false), depth),
        (exists|j: int| 0 <= j < idx.len() && key(fns, idx[j] as int, depth) == k) ==> with_key(
            fns,
            idx,
            depth,
            k,
            true,
        ).len() >= 1,
    decreases idx.len(),
{
    if idx.len() > 0 {
        let init = idx.drop_last();
        assert forall|i: int| 0 <= i < init.len() implies #[trigger] init[i] < fns.len() && path(
            fns[init[i] as int],
        ).len() <= bound by {
            assert(init[i] == idx[i]);
        }
        assert forall|i: int| 0 <= i < init.len() implies path(fns[#[trigger] init[i] as int]).len()
            > depth by {
            assert(init[i] == idx[i]);
        }
        lemma_with_key(fns, init, depth, k, bound);
        assert(idx.last() == idx[idx.len() - 1]);
        if exists|j: int| 0 <= j < idx.len() && key(fns, idx[j] as int, depth) == k {
            let j = choose|j: int| 0 <= j < idx.len() && key(fns, idx[j] as int, depth) == k;
            if j < init.len() {
                assert(init[j] == idx[j]);
            }
        }
    }
}

proof fn lemma_min_key(fns: Seq<ModItem>, idx: Seq<usize>, depth: nat)
    requires
        idx.len() >= 1,
    ensures
        exists|j: int| 0 <= j < idx.len() && key(fns, idx[j] as int, depth) == min_key(fns, idx, depth),
    decreases idx.len(),
{
    if idx.len() > 1 {
        let init = idx.drop_last();
        lemma_min_key(fns, init, depth);
        let j = choose|j: int| 0 <= j < init.len() && key(fns, init[j] as int, depth) == min_key(fns, init, depth);
        assert(init[j] == idx[j]);
        assert(idx.last() == idx[idx.len() - 1]);
    } else {
        assert(key(fns, idx[0] as int, depth) == min_key(fns, idx, depth));
    }
}

fn at_depth_exec(fns: &Vec<ModItem>, idx: &Vec<usize>, depth: usize, here: bool) -> (r: Vec<usize>)
    requires
        forall|i: int| 0 <= i < idx.len() ==> #[trigger] idx@[i] < fns.len(),
    ensures
        r@ == at_depth(fns@, idx@, depth as nat, here),
{
    let mut r: Vec<usize> = Vec::new();
    let mut i: usize = 0;
    while i < idx.len()
        invariant
            forall|i: int| 0 <= i < idx.len() ==> #[trigger] idx@[i] < fns.len(),
            i <= idx.len(),
            r@ == at_depth(fns@, idx@.subrange(0, i as int), depth as nat, here),
        decreases idx.len() - i,
    {
        let j = idx[i];
        let ghost next = idx@.subrange(0, i + 1);
        assert(next.drop_last() =~= idx@.subrange(0, i as int));
        assert(next.last() == j);
        if (path_len(&fns[j]) <= depth) == here {
            r.push(j);
        }
        i = i + 1;
    }
    assert(idx@.subrange(0, idx.len() as int) =~= idx@);
    r
}

fn with_key_exec(fns: &Vec<ModItem>, idx: &Vec<usize>, depth: usize, k: &String, same: bool) -> (r: Vec<usize>)
    requires
        forall|i: int| 0 <= i < idx.len() ==> #[trigger] idx@[i] < fns.len(),
        all_below(fns@, idx@, depth as nat),
    ensures
        r@ == with_key(fns@, idx@, depth as nat, k@, same),
{
    let mut r: Vec<usize> = Vec::new();
    let mut i: usize = 0;
    while i < idx.len()
        invariant
            forall|i: int| 0 <= i < idx.len() ==> #[trigger] idx@[i] < fns.len(),
            all_below(fns@, idx@, depth as nat),
            i <= idx.len(),
            r@ == with_key(fns@, idx@.subrange(0, i as int), depth as nat, k@, same),
        decreases idx.len() - i,
    {
        let j = idx[i];
        let ghost next = idx@.subrange(0, i + 1);
        assert(next.drop_last() =~= idx@.subrange(0, i as int));
        assert(next.last() == j);
        assert(path(fns@[j as int]).len() > depth);
        let kj = key_of(&fns[j], depth);
        if crate::text::str_is(kj.as_str(), k.as_str()) == same {
            r.push(j);
        }
        i = i + 1;
    }
    assert(idx@.subrange(0, idx.len() as int) =~= idx@);
    r
}

fn min_key_exec(fns: &Vec<ModItem>, idx: &Vec<usize>, depth: usize) -> (r: String)
    requires
        idx.len() >= 1,
        forall|i: int| 0 <= i < idx.len() ==> #[trigger] idx@[i] < fns.len(),
        all_below(fns@, idx@, depth as nat),
    ensures
        r@ == min_key(fns@, idx@, depth as nat),
{
    assert(path(fns@[idx@[0] as int]).len() > depth);
    let mut cur = key_of(&fns[idx[0]], depth);
    let mut i: usize = 1;
    while i < idx.len()
        invariant
            forall|i: int| 0 <= i < idx.len() ==> #[trigger] idx@[i] < fns.len(),
            all_below(fns@, idx@, depth as nat),
            1 <= i <= idx.len(),
            cur@ == min_key(fns@, idx@.subrange(0, i as int), depth as nat),
        decreases idx.len() - i,
    {
        let j = idx[i];
        let ghost next = idx@.subrange(0, i + 1);
        assert(next.drop_last() =~= idx@.subrange(0, i as int));
        assert(next.last() == j);
        assert(path(fns@[j as int]).len() > depth);
        let kj = key_of(&fns[j], depth);
        if text_less(&kj, &cur) {
            cur = kj;
        }
        i = i + 1;
    }
    assert(idx@.subrange(0, idx.len() as int) =~= idx@);
    cur
}

/// Appends the declarations of the functions `idx`, nested by namespace below
/// `depth`.
fn write_scope(
    api: &String,
    fns: &Vec<ModItem>,
    idx: &Vec<usize>,
    depth: usize,
    bound: usize,
    out: &mut String,
)
    requires
        valid_idx(fns@, idx@, bound as nat),
        depth <= bound,
        fns_renderable(fns@),
    ensures
        final(out)@ == old(out)@ + scope_text(api@, fns@, idx@, depth as nat, bound as nat),
    decreases bound - depth, idx.len() + 1,
{
    proof {
        lemma_at_depth(fns@, idx@, depth as nat, bound as nat);
    }
    let ghost start = out@;
    let here = at_depth_exec(fns, idx, depth, true);
    let ghost texts = Seq::new(here@.len(), |i: int| fn_text(api@, fns@[here@[i] as int]));
    let mut i: usize = 0;
    while i < here.len()
        invariant
            valid_idx(fns@, here@, bound as nat),
            fns_renderable(fns@),
            texts == Seq::new(here@.len(), |i: int| fn_text(api@, fns@[here@[i] as int])),
            i <= here.len(),
            out@ == start + concat(texts.subrange(0, i as int)),
        decreases here.len() - i,
    {
        assert(here@[i as int] < fns.len());
        assert(fn_renderable(fns@[here@[i as int] as int]));
        let t = fn_string(api, &fns[here[i]]);
        out.append(t.as_str());
        assert(texts.subrange(0, i + 1).drop_last() =~= texts.subrange(0, i as int));
        i = i + 1;
    }
    assert(texts.subrange(0, here.len() as int) =~= texts);
    let deeper = at_depth_exec(fns, idx, depth, false);
    write_groups(api, fns, &deeper, depth, bound, out);
}

/// Appends one host module per namespace component at `depth`, by
/// increasing name.
fn write_groups(
    api: &String,
    fns: &Vec<ModItem>,
    idx: &Vec<usize>,
    depth: usize,
    bound: usize,
    out: &mut String,
)
    requires
        valid_idx(fns@, idx@, bound as nat),
        all_below(fns@, idx@, depth as nat),
        depth <= bound,
        fns_renderable(fns@),
    ensures
        final(out)@ == old(out)@ + groups_text(api@, fns@, idx@, depth as nat, bound as nat),
    decreases bound - depth, idx.len(),
{
    if idx.len() == 0 || depth >= bound {
        assert(old(out)@ + Seq::<char>::empty() =~= old(out)@);
        return;
    }
    let k = min_key_exec(fns, idx, depth);
    proof {
        lemma_min_key(fns@, idx@, depth as nat);
        lemma_with_key(fns@, idx@, depth as nat, k@, bound as nat);
    }
    let same = with_key_exec(fns, idx, depth, &k, true);
    let rest = with_key_exec(fns, idx, depth, &k, false);
    out.append("module ");
    let c = capitalize(k.as_str());
    out.append(c.as_str());
    out.append(" = struct\n");
    write_scope(api, fns, &same, depth + 1, bound, out);
    out.append("end\n");
    if rest.len() < idx.len() {
        write_groups(api, fns, &rest, depth, bound, out);
    } else {
        assert(out@ + Seq::<char>::empty() =~= out@);
    }
}

/// The host-side text of one item of a bridge module; functions are written
/// separately, after all items.
pub open spec fn item_text(it: ApiItem) -> Seq<char> {
    match it {
        ApiItem::Enum(e) => enum_text(e),
        ApiItem::Struct(s) => struct_text(s),
        ApiItem::Type(n) => "  type "@ + ocamlize_spec(n@) + ";;\n"@,
        ApiItem::Include(t) => t@ + "\n"@,
        _ => Seq::empty(),
    }
}

pub open spec fn item_renderable(it: ApiItem) -> bool {
    match it {
        ApiItem::Enum(e) => enum_renderable(e),
        ApiItem::Struct(s) => fields_renderable(s.fields@),
        ApiItem::ForeignMod { items, .. } => fns_renderable(items@),
        _ => true,
    }
}

/// Every type of the module has a host-side spelling.
pub open spec fn api_renderable(api: Api) -> bool {
    forall|i: int| 0 <= i < api.api_items.len() ==> item_renderable(#[trigger] api.api_items@[i])
}

/// The functions of the `extern "Rust"` blocks among `items`, in order.
pub open spec fn rust_fns(items: Seq<ApiItem>) -> Seq<ModItem>
    decreases items.len(),
{
    if items.len() == 0 {
        Seq::empty()
    } else {
        rust_fns(items.drop_last()) + match items.last() {
            ApiItem::ForeignMod { lang: Lang::Rust, items: ms } => ms@,
            _ => Seq::empty(),
        }
    }
}

/// The length of the longest namespace path among `fns`.
pub open spec fn max_depth(fns: Seq<ModItem>) -> nat
    decreases fns.len(),
{
    if fns.len() == 0 {
        0
    } else {
        let d = max_depth(fns.drop_last());
        if path(fns.last()).len() > d {
            path(fns.last()).len()
        } else {
            d
        }
    }
}

/// The host-side module for a bridge module: its type declarations, then its
/// native functions as foreign declarations.
#[verifier::opaque]
pub open spec fn module_text(api: Api) -> Seq<char> {
    let fns = rust_fns(api.api_items@);
    "module "@ + capitalize_spec(api.ident@) + " = struct\n"@ + concat(
        Seq::new(api.api_items@.len(), |i: int| item_text(api.api_items@[i])),
    ) + scope_text(api.ident@, fns, Seq::new(fns.len(), |i: int| i as usize), 0, max_depth(fns))
        + "end\n"@
}

fn item_string(it: &ApiItem) -> (r: String)
    requires
        item_renderable(*it),
    ensures
        r@ == item_text(*it),
{
    match it {
        ApiItem::Enum(e) => enum_string(e),
        ApiItem::Struct(s) => struct_string(s),
        ApiItem::Type(n) => {
            let mut r = String::from_str("  type ");
            let o = ocamlize(n.as_str());
            r.append(o.as_str());
            r.append(";;\n");
            r
        },
        ApiItem::Include(t) => {
            let mut r = t.clone();
            r.append("\n");
            r
        },
        _ => String::new(),
    }
}

/// Whether every type of a function has a host-side spelling.
fn fn_is_renderable(m: &ModItem) -> (r: bool)
    ensures
        r == fn_renderable(*m),
{
    match m {
        ModItem::Fn { args, output, .. } => {
            if !output.is_renderable() {
                return false;
            }
            let mut i: usize = 0;
            while i < args.len()
                invariant
                    fn_renderable(*m) == (renderable(*output) && forall|j: int|
                        0 <= j < args.len() ==> renderable(#[trigger] args@[j].2)),
                    i <= args.len(),
                    forall|j: int| 0 <= j < i ==> renderable(#[trigger] args@[j].2),
                decreases args.len() - i,
            {
                if !args[i].2.is_renderable() {
                    return false;
                }
                i = i + 1;
            }
            true
        },
    }
}

fn fields_are_renderable(fs: &Vec<(String, Type)>) -> (r: bool)
    ensures
        r == fields_renderable(fs@),
{
    let mut i: usize = 0;
    while i < fs.len()
        invariant
            i <= fs.len(),
            forall|j: int| 0 <= j < i ==> renderable(#[trigger] fs@[j].1),
        decreases fs.len() - i,
    {
        if !fs[i].1.is_renderable() {
            return false;
        }
        i = i + 1;
    }
    true
}

fn item_is_renderable(it: &ApiItem) -> (r: bool)
    ensures
        r == item_renderable(*it),
{
    match it {
        ApiItem::Enum(e) => {
            let mut i: usize = 0;
            while i < e.variants.len()
                invariant
                    item_renderable(*it) == enum_renderable(*e),
                    i <= e.variants.len(),
                    forall|j: int| 0 <= j < i ==> fields_renderable(#[trigger] e.variants@[j].fields@),
                decreases e.variants.len() - i,
            {
                if !fields_are_renderable(&e.variants[i].fields) {
                    return false;
                }
                i = i + 1;
            }
            true
        },
        ApiItem::Struct(s) => fields_are_renderable(&s.fields),
        ApiItem::ForeignMod { items, .. } => {
            let mut i: usize = 0;
            while i < items.len()
                invariant
                    item_renderable(*it) == fns_renderable(items@),
                    i <= items.len(),
                    forall|j: int| 0 <= j < i ==> fn_renderable(#[trigger] items@[j]),
                decreases items.len() - i,
            {
                if !fn_is_renderable(&items[i]) {
                    return false;
                }
                i = i + 1;
            }
            true
        },
        _ => true,
    }
}

impl Api {
    /// Whether every type of the module has a host-side spelling (a raw
    /// buffer must hold a named element type).
    pub fn is_renderable(&self) -> (r: bool)
        ensures
            r == api_renderable(*self),
    {
        let mut i: usize = 0;
        while i < self.api_items.len()
            invariant
                i <= self.api_items.len(),
                forall|j: int| 0 <= j < i ==> item_renderable(#[trigger] self.api_items@[j]),
            decreases self.api_items.len() - i,
        {
            if !item_is_renderable(&self.api_items[i]) {
                return false;
            }
            i = i + 1;
        }
        true
    }
}

/// The host-side module for a bridge module.
pub fn generate_module(api: Api) -> (r: String)
    requires
        api_renderable(api),
    ensures
        r@ == module_text(api),
{
    let ghost g = api;
    let ghost items = api.api_items@;
    let n_items = api.api_items.len();
    let mut r = String::from_str("module ");
    let c = capitalize(api.ident.as_str());
    r.append(c.as_str());
    r.append(" = struct\n");
    let ghost head = r@;
    let ghost texts = Seq::new(items.len(), |i: int| item_text(items[i]));
    let mut i: usize = 0;
    while i < api.api_items.len()
        invariant
            g == api,
            items == api.api_items@,
            api_renderable(api),
            texts == Seq::new(items.len(), |i: int| item_text(items[i])),
            i <= items.len(),
            r@ == head + concat(texts.subrange(0, i as int)),
        decreases items.len() - i,
    {
        assert(item_renderable(items[i as int]));
        let t = item_string(&api.api_items[i]);
        r.append(t.as_str());
        assert(texts.subrange(0, i + 1).drop_last() =~= texts.subrange(0, i as int));
        i = i + 1;
    }
    assert(texts.subrange(0, items.len() as int) =~= texts);
    let Api { ident, api_items } = api;
    let mut rest = api_items;
    let mut fns: Vec<ModItem> = Vec::new();
    let mut k: usize = 0;
    while rest.len() > 0
        invariant
            k + rest.len() == items.len(),
            k <= items.len(),
            items.len() == n_items,
            rest@ == items.subrange(k as int, items.len() as int),
            fns@ == rust_fns(items.subrange(0, k as int)),
            fns_renderable(fns@),
            forall|j: int| 0 <= j < items.len() ==> item_renderable(#[trigger] items[j]),
        decreases rest.len(),
    {
        let it = rest.remove(0);
        assert(it == items[k as int]);
        assert(item_renderable(items[k as int]));
        let ghost next = items.subrange(0, k + 1);
        assert(next.drop_last() =~= items.subrange(0, k as int));
        assert(next.last() == it);
        let ghost before = fns@;
        match it {
            ApiItem::ForeignMod { lang: Lang::Rust, items: ms } => {
                let mut ms = ms;
                fns.append(&mut ms);
            },
            _ => {},
        }
        assert(fns@ =~= rust_fns(next));
        k = k + 1;
        assert(rest@ =~= items.subrange(k as int, items.len() as int));
    }
    assert(items.subrange(0, items.len() as int) =~= items);
    let mut idx: Vec<usize> = Vec::new();
    let mut bound: usize = 0;
    let mut j: usize = 0;
    while j < fns.len()
        invariant
            j <= fns.len(),
            idx@ == Seq::new(j as nat, |i: int| i as usize),
            bound == max_depth(fns@.subrange(0, j as int)),
            forall|i: int| 0 <= i < j ==> path(fns@[i]).len() <= bound,
        decreases fns.len() - j,
    {
        let ghost next = fns@.subrange(0, j + 1);
        assert(next.drop_last() =~= fns@.subrange(0, j as int));
        assert(next.last() == fns@[j as int]);
        idx.push(j);
        let d = path_len(&fns[j]);
        if d > bound {
            bound = d;
        }
        j = j + 1;
        assert(idx@ =~= Seq::new(j as nat, |i: int| i as usize));
    }
    assert(fns@.subrange(0, fns.len() as int) =~= fns@);
    write_scope(&ident, &fns, &idx, 0, bound, &mut r);
    r.append("end\n");
    proof {
        reveal(module_text);
    }
    r
}

/// The host-language source for a whole file: one module per bridge module,
/// in order.
#[verifier::rlimit(40)]
pub fn generate(apis: Vec<Api>) -> (r: String)
    requires
        forall|i: int| 0 <= i < apis.len() ==> api_renderable(#[trigger] apis@[i]),
    ensures
        r@ == concat(Seq::new(apis@.len(), |i: int| module_text(apis@[i]))),
{
    let ghost orig = apis@;
    let ghost texts = Seq::new(orig.len(), |i: int| module_text(orig[i]));
    let n_apis = apis.len();
    let mut rest = apis;
    let mut r = String::new();
    let mut k: usize = 0;
    while rest.len() > 0
        invariant
            k + rest.len() == orig.len(),
            k <= orig.len(),
            orig.len() == n_apis,
            rest@ == orig.subrange(k as int, orig.len() as int),
            forall|i: int| 0 <= i < orig.len() ==> api_renderable(#[trigger] orig[i]),
            texts == Seq::new(orig.len(), |i: int| module_text(orig[i])),
            r@ == concat(texts.subrange(0, k as int)),
        decreases rest.len(),
    {
        let api = rest.remove(0);
        assert(api == orig[k as int]);
        let m = generate_module(api);
        r.append(m.as_str());
        assert(texts.subrange(0, k + 1).drop_last() =~= texts.subrange(0, k as int));
        k = k + 1;
        assert(rest@ =~= orig.subrange(k as int, orig.len() as int));
    }
    assert(texts.subrange(0, orig.len() as int) =~= texts);
    r
}

} // verus!
