use ocaml_rust::model::BufferKind;
use ocaml_rust::resolve::shape_of;
use ocaml_rust::value::Shape;
use ocaml_rust::api::{
    mangle, parse_fn, Abi, Api, ApiItem, ArgSyntax, EnumDecl, FieldDecl, ForeignFnSyntax,
    ForeignItemSyntax, ItemSyntax, Lang, ModItem, StructDecl, VariantDecl,
};
use ocaml_rust::error::Span;
use ocaml_rust::ocaml::{capitalize, generate, generate_module, ocaml_deriving};
use ocaml_rust::text::ocamlize;
use ocaml_rust::types::{PathArgs, SynNode, SynType, Type};

fn span(line: usize) -> Span {
    Span { line, column: 0 }
}

fn ident(name: &str) -> SynType {
    SynType {
        node: SynNode::Path { qself: false, leading_colon: false, ident: Some(name.to_string()), args: PathArgs::Plain },
        text: name.to_string(),
        span: span(1),
    }
}

fn generic(name: &str, args: Vec<SynType>) -> SynType {
    let text = format!("{}<{}>", name, args.iter().map(|a| a.text.clone()).collect::<Vec<_>>().join(", "));
    SynType {
        node: SynNode::Path {
            qself: false,
            leading_colon: false,
            ident: Some(name.to_string()),
            args: PathArgs::Angle(args.into_iter().map(Some).collect()),
        },
        text,
        span: span(2),
    }
}

fn reference(t: SynType) -> SynType {
    let text = format!("&{}", t.text);
    SynType { node: SynNode::Reference(Box::new(t)), text, span: span(3) }
}

fn tuple(ts: Vec<SynType>) -> SynType {
    let text = format!("({})", ts.iter().map(|a| a.text.clone()).collect::<Vec<_>>().join(", "));
    SynType { node: SynNode::Tuple(ts), text, span: span(4) }
}

fn render(t: &SynType) -> String {
    Type::parse_type(t).expect("supported").to_ocaml_string()
}

#[test]
fn names_in_snake_case() {
    assert_eq!(ocamlize("MyStruct"), "my_struct");
    assert_eq!(ocamlize("isize"), "isize");
    assert_eq!(ocamlize("VecI64"), "vec_i64");
    assert_eq!(capitalize("ffi"), "Ffi");
    assert_eq!(capitalize(""), "");
    assert_eq!(capitalize("ßa"), "SSa");
}

#[test]
fn type_mapping() {
    assert_eq!(render(&ident("isize")), "int");
    assert_eq!(render(&ident("i64")), "Int64.t");
    assert_eq!(render(&ident("i32")), "Int32.t");
    assert_eq!(render(&ident("f64")), "float");
    assert_eq!(render(&ident("String")), "string");
    assert_eq!(render(&generic("Option", vec![ident("isize")])), "int option");
    assert_eq!(render(&generic("Vec", vec![ident("f64")])), "float array");
    assert_eq!(render(&generic("VecList", vec![ident("isize")])), "int list");
    assert_eq!(render(&generic("RustResult", vec![ident("isize")])), "(int, string) Result.t");
    assert_eq!(render(&generic("Result", vec![ident("isize"), ident("String")])), "(int, string) Result.t");
    assert_eq!(render(&generic("Fn0", vec![ident("isize")])), "(unit -> (int))");
    assert_eq!(render(&generic("Fn1", vec![ident("isize"), ident("String")])), "((int) -> (string))");
    assert_eq!(render(&generic("Box", vec![ident("MyEnum")])), "my_enum");
    assert_eq!(
        render(&tuple(vec![ident("String"), ident("f64"), tuple(vec![ident("isize"), ident("isize")])])),
        "(string * float * (int * int))"
    );
    assert_eq!(render(&reference(generic("Vec", vec![ident("isize")]))), "int array");
    assert_eq!(
        render(&generic("BigArray1", vec![ident("f32")])),
        "(float, Bigarray.float32_elt, Bigarray.c_layout) Bigarray.Array1.t"
    );
}

#[test]
fn slices_are_dense_sequences() {
    let t = SynType { node: SynNode::Slice(Box::new(ident("u8"))), text: "[u8]".to_string(), span: span(5) };
    assert_eq!(Type::parse_type(&t).unwrap(), Type::VecArray(Box::new(Type::Ident("u8".to_string()))));
}

#[test]
fn unsupported_types_are_reported() {
    let t = generic("HashMap", vec![ident("K"), ident("V")]);
    let e = Type::parse_type(&t).unwrap_err();
    assert_eq!(e.message, "unsupported type HashMap<K, V>");
    assert_eq!(e.span, span(2));
    let inner = SynType { node: SynNode::Other, text: "*const u8".to_string(), span: span(9) };
    let e = Type::parse_type(&generic("Option", vec![inner])).unwrap_err();
    assert_eq!(e.message, "unsupported type *const u8");
    assert_eq!(e.span, span(9));
    let big = generic("BigArray1", vec![tuple(vec![])]);
    assert!(!Type::parse_type(&big).unwrap().is_renderable());
}

#[test]
fn abi_names() {
    let abi = |n: Option<&str>| Abi { name: n.map(|s| s.to_string()), span: span(7) };
    assert_eq!(Lang::of_abi(&abi(Some("Rust"))).unwrap(), Lang::Rust);
    assert_eq!(Lang::of_abi(&abi(Some("OCaml"))).unwrap(), Lang::OCaml);
    assert_eq!(Lang::of_abi(&abi(Some("C"))).unwrap_err().message, "unsupported abi name C");
    assert_eq!(Lang::of_abi(&abi(None)).unwrap_err().message, "no abi name provided");
}

fn arg(name: &str, ty: SynType) -> ArgSyntax {
    ArgSyntax { ident: Some(name.to_string()), is_self: false, ty, span: span(8) }
}

fn fn_syntax(name: &str, args: Vec<ArgSyntax>, output: Option<SynType>, ns: Option<Vec<&str>>) -> ForeignFnSyntax {
    ForeignFnSyntax {
        ident: name.to_string(),
        args,
        output,
        namespace: ns.map(|v| v.into_iter().map(|s| s.to_string()).collect()),
    }
}

#[test]
fn declared_functions_are_checked() {
    let f = fn_syntax("push", vec![arg("v", reference(ident("VecI64"))), arg("i", ident("i64"))], None, None);
    match parse_fn(f).unwrap() {
        ModItem::Fn { ident, args, output, .. } => {
            assert_eq!(ident, "push");
            assert_eq!(args.len(), 2);
            assert!(args[0].1);
            assert!(!args[1].1);
            assert_eq!(output, Type::Unit);
        },
    }
    let this = ArgSyntax { ident: None, is_self: true, ty: ident("Self"), span: span(11) };
    let e = parse_fn(fn_syntax("m", vec![this], None, None)).unwrap_err();
    assert_eq!(e.message, "self is not supported");
    assert_eq!(e.span, span(11));
    let pat = ArgSyntax { ident: None, is_self: false, ty: ident("isize"), span: span(12) };
    let e = parse_fn(fn_syntax("m", vec![pat], None, None)).unwrap_err();
    assert_eq!(e.message, "only identifiers are supported");
}

#[test]
fn link_names() {
    assert_eq!(mangle(&"ffi".to_string(), &"add_one".to_string(), &None), "__ocaml_ffi_add_one");
    assert_eq!(
        mangle(&"ffi".to_string(), &"f".to_string(), &Some(vec!["a".to_string(), "b".to_string()])),
        "__ocaml_ffia_b__f"
    );
}

#[test]
fn deriving_annotation() {
    assert_eq!(ocaml_deriving(&vec![]), "");
    assert_eq!(ocaml_deriving(&vec!["sexp".to_string(), "compare".to_string()]), "[@@deriving sexp,compare]");
}

fn rust_block(fns: Vec<ForeignFnSyntax>) -> ItemSyntax {
    ItemSyntax::ForeignMod {
        abi: Abi { name: Some("Rust".to_string()), span: span(20) },
        items: fns.into_iter().map(ForeignItemSyntax::Fn).collect(),
    }
}

#[test]
fn module_text_for_a_small_interface() {
    let items = vec![
        ItemSyntax::Type("VecI64".to_string()),
        ItemSyntax::Include("open! Core".to_string()),
        ItemSyntax::Struct(StructDecl {
            ident: "MyStruct".to_string(),
            deriving: vec!["sexp".to_string()],
            fields: vec![
                FieldDecl { ident: Some("x".to_string()), ty: ident("isize"), span: span(30) },
                FieldDecl { ident: Some("zs".to_string()), ty: generic("Vec", vec![ident("f64")]), span: span(31) },
            ],
            span: span(29),
        }),
        ItemSyntax::Enum(EnumDecl {
            ident: "MyEnum".to_string(),
            deriving: vec![],
            variants: vec![
                VariantDecl { ident: "NoArg".to_string(), named: false, fields: vec![] },
                VariantDecl {
                    ident: "TwoArgs".to_string(),
                    named: false,
                    fields: vec![
                        FieldDecl { ident: None, ty: ident("isize"), span: span(33) },
                        FieldDecl { ident: None, ty: ident("String"), span: span(33) },
                    ],
                },
                VariantDecl {
                    ident: "StructArgs".to_string(),
                    named: true,
                    fields: vec![FieldDecl { ident: Some("x".to_string()), ty: ident("isize"), span: span(34) }],
                },
            ],
            span: span(32),
        }),
        rust_block(vec![
            fn_syntax("create", vec![], Some(ident("VecI64")), None),
            fn_syntax("zeta", vec![arg("x", ident("isize"))], Some(ident("isize")), Some(vec!["b"])),
            fn_syntax("alpha", vec![arg("x", ident("isize"))], Some(ident("isize")), Some(vec!["a", "c"])),
            fn_syntax("len", vec![arg("v", reference(ident("VecI64")))], Some(ident("isize")), None),
        ]),
    ];
    let api = Api::parse("ffi".to_string(), items).unwrap();
    assert!(api.is_renderable());
    assert_eq!(api.abstract_types(), vec!["VecI64".to_string()]);
    let entries = api.expand().unwrap();
    let symbols: Vec<&str> = entries.iter().map(|e| e.symbol.as_str()).collect();
    assert_eq!(symbols, vec!["__ocaml_ffi_create", "__ocaml_ffib__zeta", "__ocaml_ffia_c__alpha", "__ocaml_ffi_len"]);
    assert_eq!(entries[2].path, vec!["a".to_string(), "c".to_string(), "alpha".to_string()]);
    assert_eq!(entries[1].params.len(), 1);
    assert_eq!(entries[1].params[0].name, "x");
    assert!(!entries[1].params[0].by_ref);
    assert_eq!(entries[1].params[0].shape, Some(Shape::Int));
    assert_eq!(entries[1].result, Some(Shape::Int));
    assert!(entries[3].params[0].by_ref);
    assert_eq!(entries[3].params[0].shape, None);
    assert_eq!(entries[0].params.len(), 0);
    let text = generate_module(api);
    let expected = [
        "module Ffi = struct\n",
        "  type vec_i64;;\n",
        "open! Core\n",
        "  type my_struct = {\n    x: int;\n    zs: float array;\n  } [@@boxed][@@deriving sexp];;\n",
        "  type my_enum =\n  | NoArg\n  | TwoArgs of int * string\n  | StructArgs of { x: int }\n  [@@boxed];;\n",
        "  external create\n    : unit -> vec_i64\n    = \"__ocaml_ffi_create\"\n  ;;\n\n",
        "  external len\n    : vec_i64 -> int\n    = \"__ocaml_ffi_len\"\n  ;;\n\n",
        "module A = struct\n",
        "module C = struct\n",
        "  external alpha\n    : int -> int\n    = \"__ocaml_ffia_c__alpha\"\n  ;;\n\n",
        "end\n",
        "end\n",
        "module B = struct\n",
        "  external zeta\n    : int -> int\n    = \"__ocaml_ffib__zeta\"\n  ;;\n\n",
        "end\n",
        "end\n",
    ]
    .concat();
    assert_eq!(text, expected);
}

#[test]
fn interface_errors_abort() {
    let bad = vec![rust_block(vec![fn_syntax("f", vec![arg("x", generic("HashMap", vec![ident("K"), ident("V")]))], None, None)])];
    let e = Api::parse("ffi".to_string(), bad).unwrap_err();
    assert_eq!(e.message, "unsupported type HashMap<K, V>");
    let other = vec![ItemSyntax::ForeignMod {
        abi: Abi { name: Some("Rust".to_string()), span: span(40) },
        items: vec![ForeignItemSyntax::Other(span(41))],
    }];
    let e = Api::parse("ffi".to_string(), other).unwrap_err();
    assert_eq!(e.message, "unsupported in extern mod");
    assert_eq!(e.span, span(41));
    let unnamed = vec![ItemSyntax::Struct(StructDecl {
        ident: "S".to_string(),
        deriving: vec![],
        fields: vec![FieldDecl { ident: None, ty: ident("isize"), span: span(50) }],
        span: span(49),
    })];
    let e = Api::parse("ffi".to_string(), unnamed).unwrap_err();
    assert_eq!(e.message, "struct with unnamed field S");
    let api = Api::parse("ffi".to_string(), vec![ItemSyntax::Other(span(60))]).unwrap();
    let e = api.expand().unwrap_err();
    assert_eq!(e.message, "unsupported");
    assert_eq!(e.span, span(60));
    assert!(matches!(api.api_items[0], ApiItem::Other(_)));
}

#[test]
fn whole_file_output() {
    let a = Api::parse("ffi".to_string(), vec![]).unwrap();
    let b = Api::parse("ffi2".to_string(), vec![ItemSyntax::Type("C".to_string())]).unwrap();
    assert_eq!(generate(vec![a, b]), "module Ffi = struct\nend\nmodule Ffi2 = struct\n  type c;;\nend\n");
}

#[test]
fn runtime_layouts_of_types() {
    let of = |t: SynType| shape_of(&Type::parse_type(&t).unwrap());
    assert_eq!(of(generic("Option", vec![ident("isize")])), Some(Shape::Option(Box::new(Shape::Int))));
    assert_eq!(of(generic("Vec", vec![ident("u8")])), Some(Shape::Bytes));
    assert_eq!(of(generic("Vec", vec![ident("f64")])), Some(Shape::Array(Box::new(Shape::Float))));
    assert_eq!(
        of(generic("RustResult", vec![ident("String")])),
        Some(Shape::Result(Box::new(Shape::Text), Box::new(Shape::Text)))
    );
    assert_eq!(of(generic("BigArray1", vec![ident("f32")])), Some(Shape::Buffer(BufferKind::Float32)));
    assert_eq!(
        of(tuple(vec![ident("i64"), ident("bool")])),
        Some(Shape::Tuple(vec![Shape::Int64, Shape::Bool]))
    );
    assert_eq!(of(generic("Fn0", vec![ident("isize")])), None);
    assert_eq!(of(ident("MyStruct")), None);
    assert_eq!(of(tuple(vec![ident("isize"), ident("MyStruct")])), None);
}

#[test]
fn abstract_types_sorted_once() {
    let items = vec![
        ItemSyntax::Type("B".to_string()),
        ItemSyntax::Type("A".to_string()),
        ItemSyntax::Type("B".to_string()),
        ItemSyntax::Include("x".to_string()),
    ];
    let api = Api::parse("ffi".to_string(), items).unwrap();
    assert_eq!(api.abstract_types(), vec!["A".to_string(), "B".to_string()]);
}

#[test]
fn nested_references_are_refused() {
    let t = reference(reference(ident("isize")));
    let e = Type::parse_type(&t).unwrap_err();
    assert_eq!(e.message, "unsupported type &isize");
    assert_eq!(e.span, span(3));
    assert!(Type::parse_type(&reference(ident("isize"))).is_ok());
}
