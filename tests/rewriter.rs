use link_ctypes::{
    apply_replacements, rewrite, Arg, Callee, Event, Lookup, Replacement, RewriteError, Span,
};

fn s(x: &str) -> String {
    x.to_string()
}

fn span_of(src: &str, piece: &str) -> Span {
    let start = src.find(piece).unwrap();
    Span { start, end: start + piece.len() }
}

fn found(name: &str, path: &str) -> Lookup {
    Lookup { name: s(name), path: Some(s(path)) }
}

fn missing(name: &str) -> Lookup {
    Lookup { name: s(name), path: None }
}

fn import_from(module: &str, name: &str) -> Event {
    Event::ImportFrom { module: s(module), name: s(name), asname: None }
}

fn call_name(src: &str, call: &str, callee: &str, arg: &str, value: &str, inner: usize) -> Event {
    Event::Call {
        range: span_of(src, call),
        callee: Callee::Name(s(callee)),
        first_arg: Some(Arg::Str { range: span_of(src, arg), value: s(value) }),
        inner,
    }
}

fn patch(src: &str, events: &Vec<Event>, allow: &Vec<String>, lookups: &Vec<Lookup>) -> Result<String, RewriteError> {
    let reps = rewrite(events, allow, lookups)?;
    Ok(apply_replacements(src, reps))
}

#[test]
fn find_library_call_is_replaced_whole() {
    let src = "from ctypes.util import find_library\nx = find_library(\"m\")\n";
    let events = vec![
        import_from("ctypes.util", "find_library"),
        call_name(src, "find_library(\"m\")", "find_library", "\"m\"", "m", 0),
    ];
    let lookups = vec![found("m", "/usr/lib/libm.so.6")];
    let out = patch(src, &events, &vec![], &lookups).ok().unwrap();
    assert_eq!(out, "from ctypes.util import find_library\nx = \"/usr/lib/libm.so.6\"\n");
}

#[test]
fn nested_lookup_inside_loader_keeps_constructor() {
    let src = "import ctypes\nimport ctypes.util\nl = ctypes.CDLL(ctypes.util.find_library(\"z\"))\n";
    let inner_call = "ctypes.util.find_library(\"z\")";
    let events = vec![
        Event::Import { module: s("ctypes"), asname: None },
        Event::Import { module: s("ctypes.util"), asname: None },
        Event::Call {
            range: span_of(src, "ctypes.CDLL(ctypes.util.find_library(\"z\"))"),
            callee: Callee::Path(vec![s("ctypes"), s("CDLL")]),
            first_arg: Some(Arg::Other),
            inner: 1,
        },
        Event::Call {
            range: span_of(src, inner_call),
            callee: Callee::Path(vec![s("ctypes"), s("util"), s("find_library")]),
            first_arg: Some(Arg::Str { range: span_of(src, "\"z\""), value: s("z") }),
            inner: 0,
        },
    ];
    let lookups = vec![found("z", "/lib/libz.so.1")];
    let out = patch(src, &events, &vec![], &lookups).ok().unwrap();
    assert_eq!(out, "import ctypes\nimport ctypes.util\nl = ctypes.CDLL(\"/lib/libz.so.1\")\n");
}

#[test]
fn overlapping_outer_replacement_gives_way_to_inner() {
    let src = "ctypes.CDLL(find_library(\"z\"))";
    let inner = span_of(src, "find_library(\"z\")");
    let reps = vec![
        Replacement { range: Span { start: inner.start, end: src.len() }, text: s("\"outer\"") },
        Replacement { range: inner, text: s("\"/lib/libz.so\"") },
    ];
    assert_eq!(apply_replacements(src, reps), "ctypes.CDLL(\"/lib/libz.so\")");
}

#[test]
fn allowed_failure_leaves_text_unchanged() {
    let src = "from ctypes.util import find_library\nfind_library(\"doesnotexist\")\n";
    let events = vec![
        import_from("ctypes.util", "find_library"),
        call_name(src, "find_library(\"doesnotexist\")", "find_library", "\"doesnotexist\"", "doesnotexist", 0),
    ];
    let lookups = vec![missing("doesnotexist")];
    let allow = vec![s("doesnotexist")];
    let reps = rewrite(&events, &allow, &lookups).ok().unwrap();
    assert!(reps.is_empty());
    assert_eq!(apply_replacements(src, reps), src);
}

#[test]
fn unallowed_failure_fails_the_file() {
    let src = "from ctypes.util import find_library\nfind_library(\"doesnotexist\")\n";
    let events = vec![
        import_from("ctypes.util", "find_library"),
        call_name(src, "find_library(\"doesnotexist\")", "find_library", "\"doesnotexist\"", "doesnotexist", 0),
    ];
    let lookups = vec![missing("doesnotexist")];
    match rewrite(&events, &vec![], &lookups) {
        Err(RewriteError::Unresolved(n)) => assert_eq!(n, "doesnotexist"),
        _ => panic!("expected an unresolved library"),
    }
}

#[test]
fn unknown_library_asks_for_a_lookup() {
    let src = "from ctypes.util import find_library\nfind_library(\"c\")\n";
    let events = vec![
        import_from("ctypes.util", "find_library"),
        call_name(src, "find_library(\"c\")", "find_library", "\"c\"", "c", 0),
    ];
    match rewrite(&events, &vec![], &vec![]) {
        Err(RewriteError::NotLookedUp(n)) => assert_eq!(n, "c"),
        _ => panic!("expected a lookup request"),
    }
}

#[test]
fn definition_shadows_import() {
    let src = "from ctypes.util import find_library\ndef find_library(x): pass\nfind_library(\"m\")\n";
    let events = vec![
        import_from("ctypes.util", "find_library"),
        Event::Define { name: s("find_library") },
        Event::EndDefine,
        call_name(src, "find_library(\"m\")", "find_library", "\"m\"", "m", 0),
    ];
    let reps = rewrite(&events, &vec![], &vec![]).ok().unwrap();
    assert!(reps.is_empty());
}

#[test]
fn import_inside_definition_ends_with_it() {
    let src = "def f():\n    from ctypes.util import find_library\nfind_library(\"m\")\n";
    let events = vec![
        Event::Define { name: s("f") },
        import_from("ctypes.util", "find_library"),
        Event::EndDefine,
        call_name(src, "find_library(\"m\")", "find_library", "\"m\"", "m", 0),
    ];
    let reps = rewrite(&events, &vec![], &vec![]).ok().unwrap();
    assert!(reps.is_empty());
}

#[test]
fn interpolated_argument_is_left_alone() {
    let src = "from ctypes.util import find_library\nfind_library(f\"{x}\")\n";
    let events = vec![
        import_from("ctypes.util", "find_library"),
        Event::Call {
            range: span_of(src, "find_library(f\"{x}\")"),
            callee: Callee::Name(s("find_library")),
            first_arg: Some(Arg::Interpolated),
            inner: 0,
        },
    ];
    let reps = rewrite(&events, &vec![], &vec![]).ok().unwrap();
    assert!(reps.is_empty());
}

#[test]
fn name_bound_to_interpolated_string_is_left_alone() {
    let src = "from ctypes.util import find_library\nN = f\"{x}\"\nfind_library(N)\n";
    let events = vec![
        import_from("ctypes.util", "find_library"),
        Event::Assign { target: s("N"), value: Arg::Interpolated },
        Event::Call {
            range: span_of(src, "find_library(N)"),
            callee: Callee::Name(s("find_library")),
            first_arg: Some(Arg::Name { range: span_of(src, "N)"), id: s("N") }),
            inner: 0,
        },
    ];
    let reps = rewrite(&events, &vec![], &vec![]).ok().unwrap();
    assert!(reps.is_empty());
}

#[test]
fn name_rebound_to_interpolated_string_is_left_alone() {
    let src = "from ctypes.util import find_library\nN = \"m\"\nN = f\"{x}\"\nfind_library(N)\n";
    let events = vec![
        import_from("ctypes.util", "find_library"),
        Event::Assign { target: s("N"), value: Arg::Str { range: span_of(src, "\"m\""), value: s("m") } },
        Event::Assign { target: s("N"), value: Arg::Interpolated },
        Event::Call {
            range: span_of(src, "find_library(N)"),
            callee: Callee::Name(s("find_library")),
            first_arg: Some(Arg::Name { range: span_of(src, "N)"), id: s("N") }),
            inner: 0,
        },
    ];
    let lookups = vec![found("m", "/usr/lib/libm.so.6")];
    let reps = rewrite(&events, &vec![], &lookups).ok().unwrap();
    assert!(reps.is_empty());
}

#[test]
fn plain_import_of_other_module_shadows() {
    let src = "from ctypes.util import find_library\nimport os as find_library\nfind_library(\"m\")\n";
    let events = vec![
        import_from("ctypes.util", "find_library"),
        Event::Import { module: s("os"), asname: Some(s("find_library")) },
        call_name(src, "find_library(\"m\")", "find_library", "\"m\"", "m", 0),
    ];
    let reps = rewrite(&events, &vec![], &vec![]).ok().unwrap();
    assert!(reps.is_empty());
}

#[test]
fn attribute_chain_through_aliases() {
    let src = "from ctypes import util\nimport ctypes.util as cu\nutil.find_library(\"a\")\ncu.find_library(\"b\")\n";
    let events = vec![
        import_from("ctypes", "util"),
        Event::Import { module: s("ctypes.util"), asname: Some(s("cu")) },
        Event::Call {
            range: span_of(src, "util.find_library(\"a\")"),
            callee: Callee::Path(vec![s("util"), s("find_library")]),
            first_arg: Some(Arg::Str { range: span_of(src, "\"a\""), value: s("a") }),
            inner: 0,
        },
        Event::Call {
            range: span_of(src, "cu.find_library(\"b\")"),
            callee: Callee::Path(vec![s("cu"), s("find_library")]),
            first_arg: Some(Arg::Str { range: span_of(src, "\"b\""), value: s("b") }),
            inner: 0,
        },
    ];
    let lookups = vec![found("a", "/A"), found("b", "/B")];
    let out = patch(src, &events, &vec![], &lookups).ok().unwrap();
    assert_eq!(out, "from ctypes import util\nimport ctypes.util as cu\n\"/A\"\n\"/B\"\n");
}

#[test]
fn tracked_constant_is_resolved() {
    let src = "import ctypes\nLIB = \"c\"\nh = ctypes.CDLL(LIB)\n";
    let events = vec![
        Event::Import { module: s("ctypes"), asname: None },
        Event::Assign { target: s("LIB"), value: Arg::Str { range: span_of(src, "\"c\""), value: s("c") } },
        Event::Call {
            range: span_of(src, "ctypes.CDLL(LIB)"),
            callee: Callee::Path(vec![s("ctypes"), s("CDLL")]),
            first_arg: Some(Arg::Name { range: span_of(src, "LIB)"), id: s("LIB") }),
            inner: 0,
        },
    ];
    let mut r = events;
    if let Event::Call { first_arg: Some(Arg::Name { range, .. }), .. } = &mut r[2] {
        range.end = range.start + 3;
    }
    let lookups = vec![found("c", "/lib/libc.so.6")];
    let out = patch(src, &r, &vec![], &lookups).ok().unwrap();
    assert_eq!(out, "import ctypes\nLIB = \"c\"\nh = ctypes.CDLL(\"/lib/libc.so.6\")\n");
}

#[test]
fn load_library_through_alias() {
    let src = "from ctypes.cdll import LoadLibrary as load\nload(\"ssl\")\n";
    let events = vec![
        Event::ImportFrom { module: s("ctypes.cdll"), name: s("LoadLibrary"), asname: Some(s("load")) },
        call_name(src, "load(\"ssl\")", "load", "\"ssl\"", "ssl", 0),
    ];
    let lookups = vec![found("ssl", "/usr/lib/libssl.so.3")];
    let out = patch(src, &events, &vec![], &lookups).ok().unwrap();
    assert_eq!(out, "from ctypes.cdll import LoadLibrary as load\nload(\"/usr/lib/libssl.so.3\")\n");
}

#[test]
fn import_from_other_module_shadows() {
    let src = "from ctypes.util import find_library\nfrom mylib import find_library\nfind_library(\"m\")\n";
    let events = vec![
        import_from("ctypes.util", "find_library"),
        import_from("mylib", "find_library"),
        call_name(src, "find_library(\"m\")", "find_library", "\"m\"", "m", 0),
    ];
    let reps = rewrite(&events, &vec![], &vec![]).ok().unwrap();
    assert!(reps.is_empty());
}

#[test]
fn unrelated_call_arguments_are_searched() {
    let src = "from ctypes.util import find_library\nprint(find_library(\"m\"))\n";
    let events = vec![
        import_from("ctypes.util", "find_library"),
        Event::Call {
            range: span_of(src, "print(find_library(\"m\"))"),
            callee: Callee::Name(s("print")),
            first_arg: Some(Arg::Other),
            inner: 1,
        },
        call_name(src, "find_library(\"m\")", "find_library", "\"m\"", "m", 0),
    ];
    let lookups = vec![found("m", "/usr/lib/libm.so.6")];
    let out = patch(src, &events, &vec![], &lookups).ok().unwrap();
    assert_eq!(out, "from ctypes.util import find_library\nprint(\"/usr/lib/libm.so.6\")\n");
}

#[test]
fn arguments_of_replaced_lookup_are_skipped() {
    let src = "from ctypes.util import find_library\nfind_library(\"m\", find_library(\"q\"))\n";
    let events = vec![
        import_from("ctypes.util", "find_library"),
        call_name(src, "find_library(\"m\", find_library(\"q\"))", "find_library", "\"m\"", "m", 1),
        call_name(src, "find_library(\"q\")", "find_library", "\"q\"", "q", 0),
    ];
    // "q" is never looked up: the walk does not reach it.
    let lookups = vec![found("m", "/usr/lib/libm.so.6")];
    let out = patch(src, &events, &vec![], &lookups).ok().unwrap();
    assert_eq!(out, "from ctypes.util import find_library\n\"/usr/lib/libm.so.6\"\n");
}

#[test]
fn second_pass_over_constructor_keeps_resolved_path() {
    let src = "import ctypes\nh = ctypes.CDLL(\"/lib/libz.so.1\")\n";
    let events = vec![
        Event::Import { module: s("ctypes"), asname: None },
        Event::Call {
            range: span_of(src, "ctypes.CDLL(\"/lib/libz.so.1\")"),
            callee: Callee::Path(vec![s("ctypes"), s("CDLL")]),
            first_arg: Some(Arg::Str { range: span_of(src, "\"/lib/libz.so.1\""), value: s("/lib/libz.so.1") }),
            inner: 0,
        },
    ];
    let lookups = vec![found("/lib/libz.so.1", "/lib/libz.so.1")];
    let out = patch(src, &events, &vec![], &lookups).ok().unwrap();
    assert_eq!(out, src);
}

#[test]
fn second_pass_changes_nothing() {
    let src = "from ctypes.util import find_library\nx = \"/usr/lib/libm.so.6\"\n";
    let events = vec![import_from("ctypes.util", "find_library")];
    let reps = rewrite(&events, &vec![], &vec![]).ok().unwrap();
    assert!(reps.is_empty());
    assert_eq!(apply_replacements(src, reps), src);
}

#[test]
fn patched_length_follows_replacements() {
    let src = "abcdefghij";
    let reps = vec![
        Replacement { range: Span { start: 1, end: 3 }, text: s("XYZW") },
        Replacement { range: Span { start: 2, end: 5 }, text: s("Q") },
        Replacement { range: Span { start: 6, end: 8 }, text: s("") },
    ];
    let out = apply_replacements(src, reps);
    assert_eq!(out, "aXYZWdefij");
    assert_eq!(out.len(), 10 - 2 - 2 + 4);
}

#[test]
fn touching_ranges_are_both_kept() {
    let src = "abcdef";
    let reps = vec![
        Replacement { range: Span { start: 2, end: 4 }, text: s("B") },
        Replacement { range: Span { start: 0, end: 2 }, text: s("A") },
    ];
    assert_eq!(apply_replacements(src, reps), "ABef");
}

#[test]
fn empty_range_inside_another_gives_way() {
    let src = "abcdef";
    let reps = vec![
        Replacement { range: Span { start: 1, end: 4 }, text: s("X") },
        Replacement { range: Span { start: 2, end: 2 }, text: s("Y") },
    ];
    assert_eq!(apply_replacements(src, reps), "aXef");
}

#[test]
fn same_start_shorter_wins() {
    let src = "abcdef";
    let reps = vec![
        Replacement { range: Span { start: 1, end: 5 }, text: s("L") },
        Replacement { range: Span { start: 1, end: 2 }, text: s("S") },
    ];
    assert_eq!(apply_replacements(src, reps), "aScdef");
}
