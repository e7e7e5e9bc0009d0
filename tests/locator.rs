use link_ctypes::{
    apply_image_suffix, compiler_args, darwin_candidates, darwin_variants, dyld_candidates, dyld_default_search,
    dyld_find, dyld_framework_search, dyld_library_search, dyld_loader_search, dyld_executable_path_search,
    find_library_darwin, framework_info, is_elf, linker_args, select_elf, trace_candidates, trace_pattern, DyldEnv,
};
use link_ctypes::paths::{basename, expand_home, join_path, split_list};

fn s(x: &str) -> String {
    x.to_string()
}

fn no_env() -> DyldEnv {
    DyldEnv {
        home: None,
        framework_path: None,
        library_path: None,
        fallback_framework_path: None,
        fallback_library_path: None,
        image_suffix: None,
    }
}

#[test]
fn image_suffix_is_tried_first() {
    let mut env = no_env();
    env.image_suffix = Some(s("_debug"));
    let out = apply_image_suffix(vec![s("/usr/lib/libfoo.dylib"), s("/usr/lib/noext")], &env);
    assert_eq!(out, vec![s("/usr/lib/libfoo_debug.dylib"), s("/usr/lib/libfoo.dylib"), s("/usr/lib/noext")]);
}

#[test]
fn image_suffix_found_before_plain_file() {
    let mut env = no_env();
    env.image_suffix = Some(s("_debug"));
    let existing = vec![s("/usr/lib/libfoo.dylib"), s("/usr/lib/libfoo_debug.dylib")];
    let r = dyld_find("/usr/lib/libfoo.dylib", None, None, &env, &existing);
    assert_eq!(r, Ok(s("/usr/lib/libfoo_debug.dylib")));
}

#[test]
fn no_suffix_without_variable() {
    let out = apply_image_suffix(vec![s("/usr/lib/libfoo.dylib")], &no_env());
    assert_eq!(out, vec![s("/usr/lib/libfoo.dylib")]);
}

#[test]
fn framework_is_found_in_path() {
    let fi = framework_info("/System/Library/Frameworks/Foo.framework/Foo").unwrap();
    assert_eq!(fi.name, "Foo.framework");
    assert!(framework_info("/usr/lib/libz.dylib").is_none());
}

#[test]
fn default_search_order() {
    let mut env = no_env();
    env.home = Some(s("/Users/me"));
    let out = dyld_default_search("Foo.framework/Foo", &env);
    assert_eq!(
        out,
        vec![
            s("Foo.framework/Foo"),
            s("/Users/me/Library/Frameworks/Foo.framework"),
            s("/Library/Frameworks/Foo.framework"),
            s("/Network/Library/Frameworks/Foo.framework"),
            s("/System/Library/Frameworks/Foo.framework"),
            s("/Users/me/lib/Foo"),
            s("/usr/local/lib/Foo"),
            s("/lib/Foo"),
            s("/usr/lib/Foo"),
        ]
    );
}

#[test]
fn fallback_variables_replace_defaults() {
    let mut env = no_env();
    env.fallback_library_path = Some(s("/opt/lib:/opt/lib2"));
    let out = dyld_default_search("libz.dylib", &env);
    assert_eq!(out, vec![s("libz.dylib"), s("/opt/lib/libz.dylib"), s("/opt/lib2/libz.dylib")]);
}

#[test]
fn library_and_framework_paths() {
    let mut env = no_env();
    env.library_path = Some(s("/a:~/b"));
    env.framework_path = Some(s("/fw"));
    env.home = Some(s("/h"));
    assert_eq!(dyld_library_search("x/libq.dylib", &env), vec![s("/a/libq.dylib"), s("/h/b/libq.dylib")]);
    assert_eq!(dyld_framework_search("Q.framework/Q", &env), vec![s("/fw/Q.framework")]);
    assert!(dyld_framework_search("libq.dylib", &env).is_empty());
}

#[test]
fn executable_and_loader_paths() {
    assert_eq!(dyld_executable_path_search("@executable_path/../lib/x.dylib", Some("/app/bin")), vec![s("/app/bin/../lib/x.dylib")]);
    assert!(dyld_executable_path_search("@executable_path/x.dylib", None).is_empty());
    assert_eq!(dyld_loader_search("@loader_path/x.dylib", Some("/l")), vec![s("/l/x.dylib")]);
    assert!(dyld_loader_search("x.dylib", Some("/l")).is_empty());
}

#[test]
fn candidates_in_order() {
    let mut env = no_env();
    env.library_path = Some(s("/dl"));
    let c = dyld_candidates("@loader_path/libq.dylib", None, Some("/ld"), &env);
    assert_eq!(c[0], "/ld/libq.dylib");
    assert_eq!(c[1], "/dl/libq.dylib");
    assert_eq!(c[2], "@loader_path/libq.dylib");
}

#[test]
fn dyld_find_reports_missing_library() {
    let r = dyld_find("libnothere.dylib", None, None, &no_env(), &vec![]);
    assert_eq!(r, Err(s("dyld: Library not loaded: libnothere.dylib")));
}

#[test]
fn darwin_lookup_tries_variants_in_order() {
    assert_eq!(darwin_variants("z"), vec![s("libz.dylib"), s("z.dylib"), s("z.framework/z")]);
    let existing = vec![s("/usr/lib/z.dylib"), s("/usr/lib/libz.dylib")];
    assert_eq!(find_library_darwin("z", &no_env(), &existing), Some(s("/usr/lib/libz.dylib")));
    let existing = vec![s("/usr/local/lib/z.dylib")];
    assert_eq!(find_library_darwin("z", &no_env(), &existing), Some(s("/usr/local/lib/z.dylib")));
    assert_eq!(find_library_darwin("z", &no_env(), &vec![]), None);
    assert!(darwin_candidates("z", &no_env()).contains(&s("/usr/lib/libz.dylib")));
}

#[test]
fn darwin_answer_ignores_listing_order() {
    let a = vec![s("/lib/libz.dylib"), s("/usr/lib/libz.dylib")];
    let b = vec![s("/usr/lib/libz.dylib"), s("/lib/libz.dylib")];
    assert_eq!(find_library_darwin("z", &no_env(), &a), find_library_darwin("z", &no_env(), &b));
}

#[test]
fn path_helpers() {
    assert_eq!(split_list("a::b", ':'), vec![s("a"), s(""), s("b")]);
    assert_eq!(split_list("", ':'), vec![s("")]);
    assert_eq!(basename("/usr/lib/libz.so"), "libz.so");
    assert_eq!(join_path("/usr/lib/", "x"), "/usr/lib/x");
    assert_eq!(join_path("/usr/lib", "/x"), "/x");
    assert_eq!(join_path("", "x"), "x");
    assert_eq!(expand_home("~/lib", &Some(s("/home/u"))), "/home/u/lib");
    assert_eq!(expand_home("~/lib", &None), "~/lib");
}

#[test]
fn posix_tool_arguments() {
    assert_eq!(compiler_args("/tmp/out", "m"), vec![s("-Wl,-t"), s("-o"), s("/tmp/out"), s("-lm")]);
    assert_eq!(
        linker_args(&Some(s("/a::/b")), "z"),
        vec![s("-t"), s("-L"), s("/a"), s("-L"), s("/b"), s("-o"), s("/dev/null"), s("-lz")]
    );
    assert_eq!(linker_args(&None, "z"), vec![s("-t"), s("-o"), s("/dev/null"), s("-lz")]);
}

#[test]
fn trace_is_scanned_for_library_paths() {
    assert_eq!(trace_pattern("m"), "[^\\(\\)\\s]*libm\\.[^\\(\\)\\s]*");
    assert_eq!(trace_pattern("c++"), "[^\\(\\)\\s]*libc\\+\\+\\.[^\\(\\)\\s]*");
    let trace = "/usr/bin/ld: mode elf_x86_64\n/usr/lib/crt1.o\n(/usr/lib/libm.so.6)\n/usr/lib/libmvec.so.1\n/lib/libm.a\n";
    assert_eq!(trace_candidates("m", trace), vec![s("/usr/lib/libm.so.6"), s("/lib/libm.a")]);
    assert!(trace_candidates("z", trace).is_empty());
}

#[test]
fn elf_check_and_selection() {
    assert!(is_elf(&[0x7f, b'E', b'L', b'F', 2]));
    assert!(!is_elf(&[0x7f, b'E', b'L']));
    assert!(!is_elf(b"!<arch>\n"));
    let cands = vec![s("/lib/libm.a"), s("/usr/lib/libm.so.6")];
    let headers = vec![b"!<ar".to_vec(), vec![0x7f, b'E', b'L', b'F']];
    assert_eq!(select_elf(&cands, &headers), Some(s("/usr/lib/libm.so.6")));
    assert_eq!(select_elf(&cands, &vec![b"!<ar".to_vec()]), None);
}
