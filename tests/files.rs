use ocaml_rust::api::ItemSyntax;
use ocaml_rust::error::Span;
use ocaml_rust::file::{File, FileItem};

fn span(line: usize) -> Span {
    Span { line, column: 1 }
}

#[test]
fn bridge_modules_are_found_in_order() {
    let items = vec![
        FileItem::Other { bridge: false, span: span(1) },
        FileItem::Bridge { ident: "ffi".to_string(), items: vec![ItemSyntax::Type("T".to_string())] },
        FileItem::Module(Some(vec![
            FileItem::Module(None),
            FileItem::Bridge { ident: "inner".to_string(), items: vec![] },
        ])),
        FileItem::Bridge { ident: "last".to_string(), items: vec![] },
    ];
    let f = File::parse(items).unwrap();
    let names: Vec<&str> = f.apis.iter().map(|a| a.ident.as_str()).collect();
    assert_eq!(names, vec!["ffi", "inner", "last"]);
    assert_eq!(f.apis[0].api_items.len(), 1);
}

#[test]
fn bridge_on_a_non_module_is_refused() {
    let items = vec![
        FileItem::Module(Some(vec![FileItem::Other { bridge: true, span: span(7) }])),
        FileItem::Bridge { ident: "ffi".to_string(), items: vec![] },
    ];
    let e = File::parse(items).unwrap_err();
    assert_eq!(e.message, "expected a module");
    assert_eq!(e.span, span(7));
}
