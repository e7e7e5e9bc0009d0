use link_ctypes::{apply_replacements, module_events, rewrite, Alias, Callee, Event, Expr, Lookup, Span, Stmt};

fn s(x: &str) -> String {
    x.to_string()
}

fn span_of(src: &str, piece: &str) -> Span {
    let start = src.find(piece).unwrap();
    Span { start, end: start + piece.len() }
}

#[test]
fn walk_reaches_calls_inside_lists_and_functions() {
    let src = "from ctypes.util import find_library\ndef f():\n    x = [find_library(\"m\")]\n";
    let call = Expr::Call {
        range: span_of(src, "find_library(\"m\")"),
        callee: Callee::Name(s("find_library")),
        args: vec![Expr::Str { range: span_of(src, "\"m\""), value: s("m") }],
        keywords: vec![],
    };
    let body = vec![
        Stmt::ImportFrom { module: Some(s("ctypes.util")), names: vec![Alias { name: s("find_library"), asname: None }] },
        Stmt::FunctionDef {
            name: s("f"),
            body: vec![Stmt::Assign {
                targets: vec![Expr::Name { range: span_of(src, "x"), id: s("x") }],
                value: Expr::List { elts: vec![call] },
            }],
        },
    ];
    let events = module_events(body);
    assert_eq!(events.len(), 5);
    assert!(matches!(events[1], Event::Define { .. }));
    assert!(matches!(events[2], Event::Assign { .. }));
    assert!(matches!(events[3], Event::Call { inner: 0, .. }));
    assert!(matches!(events[4], Event::EndDefine));
    let lookups = vec![Lookup { name: s("m"), path: Some(s("/usr/lib/libm.so.6")) }];
    let reps = rewrite(&events, &vec![], &lookups).ok().unwrap();
    assert_eq!(
        apply_replacements(src, reps),
        "from ctypes.util import find_library\ndef f():\n    x = [\"/usr/lib/libm.so.6\"]\n"
    );
}

#[test]
fn call_counts_the_events_of_its_arguments() {
    let inner = Expr::Call { range: Span { start: 5, end: 9 }, callee: Callee::Other, args: vec![], keywords: vec![] };
    let outer = Expr::Call {
        range: Span { start: 0, end: 10 },
        callee: Callee::Name(s("g")),
        args: vec![Expr::BinOp { left: Box::new(inner), right: Box::new(Expr::Other) }],
        keywords: vec![],
    };
    let events = module_events(vec![Stmt::Expr { value: outer }]);
    assert_eq!(events.len(), 2);
    assert!(matches!(events[0], Event::Call { inner: 1, .. }));
}
