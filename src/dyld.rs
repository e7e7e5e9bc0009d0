//! The Darwin dynamic loader's search order: which files it would try, in
//! which order, for a library name.
use vstd::prelude::*;
use crate::paths::{
    basename_of, ends_with, expand_home_of, join_of, last_index_of, split_on, starts_with, strings_view,
    split_list, str_ends_with, expand_home, join_path, basename, str_starts_with, skip_chars, last_index,
};

verus! {

/// The framework bundle that a path names, such as `Foo.framework`.
pub struct FrameworkInfo {
    pub name: String,
}

/// The loader's environment: each field is the value of one variable, or
/// `None` where it is unset.
pub struct DyldEnv {
    /// `HOME`
    pub home: Option<String>,
    /// `DYLD_FRAMEWORK_PATH`
    pub framework_path: Option<String>,
    /// `DYLD_LIBRARY_PATH`
    pub library_path: Option<String>,
    /// `DYLD_FALLBACK_FRAMEWORK_PATH`
    pub fallback_framework_path: Option<String>,
    /// `DYLD_FALLBACK_LIBRARY_PATH`
    pub fallback_library_path: Option<String>,
    /// `DYLD_IMAGE_SUFFIX`
    pub image_suffix: Option<String>,
}

pub open spec fn opt_view(o: Option<String>) -> Option<Seq<char>> {
    match o {
        Some(s) => Some(s@),
        None => None,
    }
}

pub open spec fn opt_str_view(o: Option<&str>) -> Option<Seq<char>> {
    match o {
        Some(s) => Some(s@),
        None => None,
    }
}

pub open spec fn framework_ext() -> Seq<char> {
    seq!['.', 'f', 'r', 'a', 'm', 'e', 'w', 'o', 'r', 'k']
}

/// The first of `parts` that ends in `.framework`.
pub open spec fn first_framework(parts: Seq<Seq<char>>) -> Option<Seq<char>>
    decreases parts.len(),
{
    if parts.len() == 0 {
        None
    } else if ends_with(parts[0], framework_ext()) {
        Some(parts[0])
    } else {
        first_framework(parts.skip(1))
    }
}

/// The framework bundle named by a path: its first `/`-separated component
/// that ends in `.framework`.
pub open spec fn framework_of(name: Seq<char>) -> Option<Seq<char>> {
    first_framework(split_on(name, '/'))
}

/// The directories that a path-list variable holds; none where it is unset.
pub open spec fn env_list_of(v: Option<Seq<char>>) -> Seq<Seq<char>> {
    match v {
        Some(s) => split_on(s, ':'),
        None => Seq::<Seq<char>>::empty(),
    }
}

/// Each directory, home-expanded, joined with `rel`.
pub open spec fn joined_all(dirs: Seq<Seq<char>>, home: Option<Seq<char>>, rel: Seq<char>) -> Seq<Seq<char>> {
    dirs.map_values(|d: Seq<char>| join_of(expand_home_of(d, home), rel))
}

pub open spec fn default_framework_dirs() -> Seq<Seq<char>> {
    seq![
        "~/Library/Frameworks"@,
        "/Library/Frameworks"@,
        "/Network/Library/Frameworks"@,
        "/System/Library/Frameworks"@,
    ]
}

pub open spec fn default_library_dirs() -> Seq<Seq<char>> {
    seq!["~/lib"@, "/usr/local/lib"@, "/lib"@, "/usr/lib"@]
}

/// A fallback list: the variable's directories where it names any, else the
/// built-in ones.
pub open spec fn fallback_dirs(v: Option<Seq<char>>, defaults: Seq<Seq<char>>) -> Seq<Seq<char>> {
    if env_list_of(v).len() > 0 {
        env_list_of(v)
    } else {
        defaults
    }
}

pub open spec fn prefixed_search(name: Seq<char>, prefix: Seq<char>, base: Option<Seq<char>>) -> Seq<Seq<char>> {
    if starts_with(name, prefix) && base is Some {
        seq![join_of(base->Some_0, name.skip(prefix.len() as int))]
    } else {
        Seq::<Seq<char>>::empty()
    }
}

pub open spec fn framework_search_of(name: Seq<char>, env: DyldEnv) -> Seq<Seq<char>> {
    match framework_of(name) {
        Some(fw) => joined_all(env_list_of(opt_view(env.framework_path)), opt_view(env.home), fw),
        None => Seq::<Seq<char>>::empty(),
    }
}

pub open spec fn library_search_of(name: Seq<char>, env: DyldEnv) -> Seq<Seq<char>> {
    joined_all(env_list_of(opt_view(env.library_path)), opt_view(env.home), basename_of(name))
}

pub open spec fn default_search_of(name: Seq<char>, env: DyldEnv) -> Seq<Seq<char>> {
    let home = opt_view(env.home);
    let fws = match framework_of(name) {
        Some(fw) => joined_all(
            fallback_dirs(opt_view(env.fallback_framework_path), default_framework_dirs()),
            home,
            fw,
        ),
        None => Seq::<Seq<char>>::empty(),
    };
    seq![name] + fws + joined_all(
        fallback_dirs(opt_view(env.fallback_library_path), default_library_dirs()),
        home,
        basename_of(name),
    )
}

/// `p` with `suffix` put before its extension, where its last component has
/// one.
pub open spec fn insert_suffix(p: Seq<char>, suffix: Seq<char>) -> Option<Seq<char>> {
    let d = last_index_of(p, '.');
    if d > last_index_of(p, '/') + 1 {
        Some(p.take(d) + suffix + p.skip(d))
    } else {
        None
    }
}

pub open spec fn suffix_forms(p: Seq<char>, suffix: Seq<char>) -> Seq<Seq<char>> {
    match insert_suffix(p, suffix) {
        Some(q) => seq![q, p],
        None => seq![p],
    }
}

/// Each path preceded by its suffixed form, where it has one.
pub open spec fn with_suffix(paths: Seq<Seq<char>>, suffix: Seq<char>) -> Seq<Seq<char>>
    decreases paths.len(),
{
    if paths.len() == 0 {
        Seq::<Seq<char>>::empty()
    } else {
        with_suffix(paths.drop_last(), suffix) + suffix_forms(paths.last(), suffix)
    }
}

pub open spec fn suffixed_of(paths: Seq<Seq<char>>, suffix: Option<Seq<char>>) -> Seq<Seq<char>> {
    match suffix {
        Some(s) => with_suffix(paths, s),
        None => paths,
    }
}

/// Every file the loader tries for `name`, in order.
pub open spec fn candidates_of(
    name: Seq<char>,
    exe: Option<Seq<char>>,
    loader: Option<Seq<char>>,
    env: DyldEnv,
) -> Seq<Seq<char>> {
    suffixed_of(
        prefixed_search(name, "@executable_path/"@, exe) + prefixed_search(name, "@loader_path/"@, loader)
            + framework_search_of(name, env) + library_search_of(name, env) + default_search_of(name, env),
        opt_view(env.image_suffix),
    )
}

/// The first of `cands` that is among `existing`.
pub open spec fn first_existing(cands: Seq<Seq<char>>, existing: Seq<Seq<char>>) -> Option<Seq<char>>
    decreases cands.len(),
{
    if cands.len() == 0 {
        None
    } else if existing.contains(cands[0]) {
        Some(cands[0])
    } else {
        first_existing(cands.skip(1), existing)
    }
}

pub open spec fn not_loaded_message(name: Seq<char>) -> Seq<char> {
    "dyld: Library not loaded: "@ + name
}

pub fn framework_info(filename: &str) -> (r: Option<FrameworkInfo>)
    ensures
        match r {
            Some(fi) => framework_of(filename@) == Some(fi.name@),
            None => framework_of(filename@) is None,
        },
{
    let parts = split_list(filename, '/');
    let ghost all = strings_view(parts@);
    proof {
        reveal_strlit(".framework");
        assert(".framework"@ =~= framework_ext());
        assert(all.skip(0) =~= all);
    }
    let mut i: usize = 0;
    while i < parts.len()
        invariant
            all == strings_view(parts@),
            all == split_on(filename@, '/'),
            i <= parts@.len(),
            ".framework"@ == framework_ext(),
            first_framework(all) == first_framework(all.skip(i as int)),
        decreases parts.len() - i,
    {
        assert(all.skip(i as int)[0] == parts@[i as int]@);
        assert(all.skip(i as int).skip(1) =~= all.skip(i as int + 1));
        if str_ends_with(parts[i].as_str(), ".framework") {
            assert(ends_with(all.skip(i as int)[0], framework_ext()));
            return Some(FrameworkInfo { name: parts[i].clone() });
        }
        i = i + 1;
    }
    None
}

/// The directories of a path-list variable.
pub fn dyld_env(v: &Option<String>) -> (r: Vec<String>)
    ensures
        strings_view(r@) == env_list_of(opt_view(*v)),
{
    match v {
        Some(s) => split_list(s.as_str(), ':'),
        None => {
            let r: Vec<String> = Vec::new();
            assert(strings_view(r@) =~= Seq::<Seq<char>>::empty());
            r
        },
    }
}

fn join_each(dirs: &Vec<String>, home: &Option<String>, rel: &str, out: &mut Vec<String>)
    ensures
        strings_view(final(out)@) == strings_view(old(out)@) + joined_all(strings_view(dirs@), opt_view(*home), rel@),
{
    let ghost start = strings_view(out@);
    let ghost ds = strings_view(dirs@);
    let mut i: usize = 0;
    while i < dirs.len()
        invariant
            i <= dirs@.len(),
            ds == strings_view(dirs@),
            strings_view(out@) == start + joined_all(ds.take(i as int), opt_view(*home), rel@),
        decreases dirs.len() - i,
    {
        let e = expand_home(dirs[i].as_str(), home);
        let j = join_path(e.as_str(), rel);
        proof {
            assert(ds.take(i as int + 1) =~= ds.take(i as int).push(dirs@[i as int]@));
            assert(joined_all(ds.take(i as int + 1), opt_view(*home), rel@) =~= joined_all(ds.take(i as int), opt_view(*home), rel@).push(j@));
            assert(strings_view(out@.push(j)) =~= strings_view(out@).push(j@));
        }
        out.push(j);
        i = i + 1;
    }
    assert(ds.take(dirs@.len() as int) =~= ds);
}

fn strings_of(items: &Vec<&str>) -> (r: Vec<String>)
    ensures
        r@.len() == items@.len(),
        forall|k: int| 0 <= k < r@.len() ==> #[trigger] r@[k]@ == items@[k]@,
{
    let mut r: Vec<String> = Vec::new();
    let mut i: usize = 0;
    while i < items.len()
        invariant
            i <= items@.len(),
            r@.len() == i,
            forall|k: int| 0 <= k < i ==> #[trigger] r@[k]@ == items@[k]@,
        decreases items.len() - i,
    {
        r.push(String::from_str(items[i]));
        i = i + 1;
    }
    r
}

/// The built-in fallback directories for frameworks.
pub fn default_framework_fallback() -> (r: Vec<String>)
    ensures
        strings_view(r@) == default_framework_dirs(),
{
    let r = strings_of(&vec![
        "~/Library/Frameworks",
        "/Library/Frameworks",
        "/Network/Library/Frameworks",
        "/System/Library/Frameworks",
    ]);
    assert(strings_view(r@) =~= default_framework_dirs());
    r
}

/// The built-in fallback directories for libraries.
pub fn default_library_fallback() -> (r: Vec<String>)
    ensures
        strings_view(r@) == default_library_dirs(),
{
    let r = strings_of(&vec!["~/lib", "/usr/local/lib", "/lib", "/usr/lib"]);
    assert(strings_view(r@) =~= default_library_dirs());
    r
}

/// The directories of `DYLD_FALLBACK_FRAMEWORK_PATH`.
pub fn dyld_fallback_framework_path(env: &DyldEnv) -> (r: Vec<String>)
    ensures
        strings_view(r@) == env_list_of(opt_view(env.fallback_framework_path)),
{
    dyld_env(&env.fallback_framework_path)
}

/// The directories of `DYLD_FALLBACK_LIBRARY_PATH`.
pub fn dyld_fallback_library_path(env: &DyldEnv) -> (r: Vec<String>)
    ensures
        strings_view(r@) == env_list_of(opt_view(env.fallback_library_path)),
{
    dyld_env(&env.fallback_library_path)
}


fn prefixed_search_exec(name: &str, prefix: &str, base: Option<&str>) -> (r: Vec<String>)
    ensures
        strings_view(r@) == prefixed_search(name@, prefix@, opt_str_view(base)),
{
    let mut r: Vec<String> = Vec::new();
    let _n = name.unicode_len();
    if str_starts_with(name, prefix) {
        match base {
            Some(b) => {
                let rel = skip_chars(name, prefix.unicode_len());
                let j = join_path(b, rel.as_str());
                r.push(j);
            },
            None => {},
        }
    }
    assert(strings_view(r@) =~= prefixed_search(name@, prefix@, opt_str_view(base)));
    r
}

/// The path under the executable's directory, for a name that starts with
/// `@executable_path/`.
pub fn dyld_executable_path_search(name: &str, executable_path: Option<&str>) -> (r: Vec<String>)
    ensures
        strings_view(r@) == prefixed_search(name@, "@executable_path/"@, opt_str_view(executable_path)),
{
    prefixed_search_exec(name, "@executable_path/", executable_path)
}

/// The path under the loading image's directory, for a name that starts with
/// `@loader_path/`.
pub fn dyld_loader_search(name: &str, loader_path: Option<&str>) -> (r: Vec<String>)
    ensures
        strings_view(r@) == prefixed_search(name@, "@loader_path/"@, opt_str_view(loader_path)),
{
    prefixed_search_exec(name, "@loader_path/", loader_path)
}

/// The framework bundle under each directory of `DYLD_FRAMEWORK_PATH`.
pub fn dyld_framework_search(name: &str, env: &DyldEnv) -> (r: Vec<String>)
    ensures
        strings_view(r@) == framework_search_of(name@, *env),
{
    let mut r: Vec<String> = Vec::new();
    match framework_info(name) {
        Some(fw) => {
            let dirs = dyld_env(&env.framework_path);
            join_each(&dirs, &env.home, fw.name.as_str(), &mut r);
        },
        None => {},
    }
    assert(strings_view(r@) =~= framework_search_of(name@, *env));
    r
}

/// The name's last component under each directory of `DYLD_LIBRARY_PATH`.
pub fn dyld_library_search(name: &str, env: &DyldEnv) -> (r: Vec<String>)
    ensures
        strings_view(r@) == library_search_of(name@, *env),
{
    let mut r: Vec<String> = Vec::new();
    let base = basename(name);
    let dirs = dyld_env(&env.library_path);
    join_each(&dirs, &env.home, base.as_str(), &mut r);
    assert(strings_view(r@) =~= library_search_of(name@, *env));
    r
}

/// The name itself, then the fallback framework and library directories.
pub fn dyld_default_search(name: &str, env: &DyldEnv) -> (r: Vec<String>)
    ensures
        strings_view(r@) == default_search_of(name@, *env),
{
    let mut r: Vec<String> = Vec::new();
    r.push(String::from_str(name));
    assert(strings_view(r@) =~= seq![name@]);
    match framework_info(name) {
        Some(fw) => {
            let fallback = dyld_fallback_framework_path(env);
            if fallback.len() > 0 {
                join_each(&fallback, &env.home, fw.name.as_str(), &mut r);
            } else {
                let defaults = default_framework_fallback();
                join_each(&defaults, &env.home, fw.name.as_str(), &mut r);
            }
        },
        None => {
            assert(strings_view(r@) =~= seq![name@] + Seq::<Seq<char>>::empty());
        },
    }
    let base = basename(name);
    let fallback = dyld_fallback_library_path(env);
    if fallback.len() > 0 {
        join_each(&fallback, &env.home, base.as_str(), &mut r);
    } else {
        let defaults = default_library_fallback();
        join_each(&defaults, &env.home, base.as_str(), &mut r);
    }
    r
}

/// `p` with `suffix` before its extension, where its last component has one.
pub fn insert_image_suffix(p: &str, suffix: &str) -> (r: Option<String>)
    ensures
        match r {
            Some(q) => insert_suffix(p@, suffix@) == Some(q@),
            None => insert_suffix(p@, suffix@) is None,
        },
{
    let _n = p.unicode_len();
    let dot = last_index(p, '.');
    let slash = last_index(p, '/');
    match dot {
        Some(d) => {
            let after_slash: usize = match slash {
                Some(k) => k + 1,
                None => 0,
            };
            if d > after_slash {
                let mut q = String::from_str(p.substring_char(0, d));
                q.append(suffix);
                let tail = skip_chars(p, d);
                q.append(tail.as_str());
                assert(q@ =~= p@.take(d as int) + suffix@ + p@.skip(d as int));
                Some(q)
            } else {
                None
            }
        },
        None => None,
    }
}

/// Each path preceded by its form with `DYLD_IMAGE_SUFFIX` inserted, where
/// the variable is set and the path has an extension.
pub fn apply_image_suffix(paths: Vec<String>, env: &DyldEnv) -> (r: Vec<String>)
    ensures
        strings_view(r@) == suffixed_of(strings_view(paths@), opt_view(env.image_suffix)),
{
    match &env.image_suffix {
        Some(suffix) => {
            let ghost ps = strings_view(paths@);
            let mut r: Vec<String> = Vec::new();
            let mut i: usize = 0;
            while i < paths.len()
                invariant
                    i <= paths@.len(),
                    ps == strings_view(paths@),
                    strings_view(r@) == with_suffix(ps.take(i as int), suffix@),
                decreases paths.len() - i,
            {
                let p = &paths[i];
                proof {
                    assert(ps.take(i as int + 1).drop_last() =~= ps.take(i as int));
                    assert(ps.take(i as int + 1).last() == p@);
                }
                match insert_image_suffix(p.as_str(), suffix.as_str()) {
                    Some(q) => {
                        proof {
                            assert(strings_view(r@.push(q)) =~= strings_view(r@).push(q@));
                        }
                        r.push(q);
                        proof {
                            assert(strings_view(r@.push(*p)) =~= strings_view(r@).push(p@));
                        }
                        r.push(p.clone());
                        assert(strings_view(r@) =~= with_suffix(ps.take(i as int + 1), suffix@));
                    },
                    None => {
                        proof {
                            assert(strings_view(r@.push(*p)) =~= strings_view(r@).push(p@));
                        }
                        r.push(p.clone());
                        assert(strings_view(r@) =~= with_suffix(ps.take(i as int + 1), suffix@));
                    },
                }
                i = i + 1;
            }
            assert(ps.take(paths@.len() as int) =~= ps);
            r
        },
        None => paths,
    }
}

/// Every file the loader tries for `name`, in order.
pub fn dyld_candidates(
    name: &str,
    executable_path: Option<&str>,
    loader_path: Option<&str>,
    env: &DyldEnv,
) -> (r: Vec<String>)
    ensures
        strings_view(r@) == candidates_of(name@, opt_str_view(executable_path), opt_str_view(loader_path), *env),
{
    let mut all = dyld_executable_path_search(name, executable_path);
    let mut more = dyld_loader_search(name, loader_path);
    all.append(&mut more);
    let mut more = dyld_framework_search(name, env);
    all.append(&mut more);
    let mut more = dyld_library_search(name, env);
    all.append(&mut more);
    let mut more = dyld_default_search(name, env);
    all.append(&mut more);
    proof {
        lemma_strings_view_add(all@);
    }
    apply_image_suffix(all, env)
}

/// The first of `cands` that `existing` holds.
pub fn first_existing_path(cands: &Vec<String>, existing: &Vec<String>) -> (r: Option<String>)
    ensures
        match r {
            Some(p) => first_existing(strings_view(cands@), strings_view(existing@)) == Some(p@),
            None => first_existing(strings_view(cands@), strings_view(existing@)) is None,
        },
{
    let ghost cs = strings_view(cands@);
    let ghost es = strings_view(existing@);
    assert(cs.skip(0) =~= cs);
    let mut i: usize = 0;
    while i < cands.len()
        invariant
            i <= cands@.len(),
            cs == strings_view(cands@),
            es == strings_view(existing@),
            first_existing(cs, es) == first_existing(cs.skip(i as int), es),
        decreases cands.len() - i,
    {
        assert(cs.skip(i as int)[0] == cands@[i as int]@);
        assert(cs.skip(i as int).skip(1) =~= cs.skip(i as int + 1));
        let mut j: usize = 0;
        while j < existing.len()
            invariant
                i < cands@.len(),
                j <= existing@.len(),
                es == strings_view(existing@),
                cs == strings_view(cands@),
                first_existing(cs, es) == first_existing(cs.skip(i as int), es),
                cs.skip(i as int).len() > 0,
                cs.skip(i as int)[0] == cands@[i as int]@,
                forall|k: int| 0 <= k < j ==> es[k] != cands@[i as int]@,
            decreases existing.len() - j,
        {
            if existing[j] == cands[i] {
                assert(es[j as int] == cands@[i as int]@);
                assert(es.contains(cs.skip(i as int)[0]));
                return Some(cands[i].clone());
            }
            j = j + 1;
        }
        assert(!es.contains(cs.skip(i as int)[0]));
        i = i + 1;
    }
    None
}

/// The first file the loader would find for `name`, of those that
/// `existing` holds; an error naming the library where there is none.
pub fn dyld_find(
    name: &str,
    executable_path: Option<&str>,
    loader_path: Option<&str>,
    env: &DyldEnv,
    existing: &Vec<String>,
) -> (r: Result<String, String>)
    ensures
        match first_existing(
            candidates_of(name@, opt_str_view(executable_path), opt_str_view(loader_path), *env),
            strings_view(existing@),
        ) {
            Some(p) => r matches Ok(q) && q@ == p,
            None => r matches Err(e) && e@ == not_loaded_message(name@),
        },
{
    let cands = dyld_candidates(name, executable_path, loader_path, env);
    match first_existing_path(&cands, existing) {
        Some(p) => Ok(p),
        None => {
            let mut e = String::from_str("dyld: Library not loaded: ");
            e.append(name);
            Err(e)
        },
    }
}

/// The names tried for a library on Darwin, in order.
pub open spec fn darwin_variants_of(name: Seq<char>) -> Seq<Seq<char>> {
    seq!["lib"@ + name + ".dylib"@, name + ".dylib"@, name + ".framework/"@ + name]
}

/// The loader's answer for the first variant that it finds.
pub open spec fn darwin_find_of(variants: Seq<Seq<char>>, env: DyldEnv, existing: Seq<Seq<char>>) -> Option<Seq<char>>
    decreases variants.len(),
{
    if variants.len() == 0 {
        None
    } else {
        match first_existing(candidates_of(variants[0], None, None, env), existing) {
            Some(p) => Some(p),
            None => darwin_find_of(variants.skip(1), env, existing),
        }
    }
}

/// Every file tried for the variants, in order.
pub open spec fn darwin_candidates_of(variants: Seq<Seq<char>>, env: DyldEnv) -> Seq<Seq<char>>
    decreases variants.len(),
{
    if variants.len() == 0 {
        Seq::<Seq<char>>::empty()
    } else {
        darwin_candidates_of(variants.drop_last(), env) + candidates_of(variants.last(), None, None, env)
    }
}

/// `lib<name>.dylib`, `<name>.dylib` and `<name>.framework/<name>`.
pub fn darwin_variants(name: &str) -> (r: Vec<String>)
    ensures
        strings_view(r@) == darwin_variants_of(name@),
{
    let mut a = String::from_str("lib");
    a.append(name);
    a.append(".dylib");
    let mut b = String::from_str(name);
    b.append(".dylib");
    let mut c = String::from_str(name);
    c.append(".framework/");
    c.append(name);
    let r = vec![a, b, c];
    assert(strings_view(r@) =~= darwin_variants_of(name@));
    r
}

/// Every file that the search for `name` on Darwin may look at, in order.
pub fn darwin_candidates(name: &str, env: &DyldEnv) -> (r: Vec<String>)
    ensures
        strings_view(r@) == darwin_candidates_of(darwin_variants_of(name@), *env),
{
    let variants = darwin_variants(name);
    let ghost vs = strings_view(variants@);
    let mut r: Vec<String> = Vec::new();
    let mut i: usize = 0;
    while i < variants.len()
        invariant
            i <= variants@.len(),
            vs == strings_view(variants@),
            vs == darwin_variants_of(name@),
            strings_view(r@) == darwin_candidates_of(vs.take(i as int), *env),
        decreases variants.len() - i,
    {
        let mut more = dyld_candidates(variants[i].as_str(), None, None, env);
        proof {
            assert(vs.take(i as int + 1).drop_last() =~= vs.take(i as int));
            lemma_strings_view_add(r@);
        }
        r.append(&mut more);
        i = i + 1;
    }
    assert(vs.take(variants@.len() as int) =~= vs);
    r
}

/// The library that the Darwin loader would load for `name`, of the files
/// that `existing` holds.
pub fn find_library_darwin(name: &str, env: &DyldEnv, existing: &Vec<String>) -> (r: Option<String>)
    ensures
        opt_view(r) == darwin_find_of(darwin_variants_of(name@), *env, strings_view(existing@)),
{
    let variants = darwin_variants(name);
    let ghost vs = strings_view(variants@);
    let ghost es = strings_view(existing@);
    assert(vs.skip(0) =~= vs);
    let mut i: usize = 0;
    while i < variants.len()
        invariant
            i <= variants@.len(),
            vs == strings_view(variants@),
            es == strings_view(existing@),
            vs == darwin_variants_of(name@),
            darwin_find_of(vs, *env, es) == darwin_find_of(vs.skip(i as int), *env, es),
        decreases variants.len() - i,
    {
        assert(vs.skip(i as int)[0] == variants@[i as int]@);
        assert(vs.skip(i as int).skip(1) =~= vs.skip(i as int + 1));
        match dyld_find(variants[i].as_str(), None, None, env, existing) {
            Ok(p) => {
                return Some(p);
            },
            Err(_) => {},
        }
        i = i + 1;
    }
    None
}

/// Which file is found depends on which files exist, not on the order in
/// which they were listed.
pub proof fn lemma_first_existing_order_free(cands: Seq<Seq<char>>, e1: Seq<Seq<char>>, e2: Seq<Seq<char>>)
    requires
        e1.to_set() == e2.to_set(),
    ensures
        first_existing(cands, e1) == first_existing(cands, e2),
    decreases cands.len(),
{
    if cands.len() > 0 {
        assert(e1.contains(cands[0]) == e1.to_set().contains(cands[0]));
        assert(e2.contains(cands[0]) == e2.to_set().contains(cands[0]));
        lemma_first_existing_order_free(cands.skip(1), e1, e2);
    }
}

/// The Darwin lookup gives the same answer for the same name, environment
/// and set of existing files, whatever order the files were listed in.
pub proof fn lemma_darwin_deterministic(variants: Seq<Seq<char>>, env: DyldEnv, e1: Seq<Seq<char>>, e2: Seq<Seq<char>>)
    requires
        e1.to_set() == e2.to_set(),
    ensures
        darwin_find_of(variants, env, e1) == darwin_find_of(variants, env, e2),
    decreases variants.len(),
{
    if variants.len() > 0 {
        lemma_first_existing_order_free(candidates_of(variants[0], None, None, env), e1, e2);
        lemma_darwin_deterministic(variants.skip(1), env, e1, e2);
    }
}

pub proof fn lemma_strings_view_add(v: Seq<String>)
    ensures
        forall|a: Seq<String>, b: Seq<String>| #[trigger] strings_view(a + b) == strings_view(a) + strings_view(b),
{
    assert forall|a: Seq<String>, b: Seq<String>| #[trigger] strings_view(a + b) == strings_view(a) + strings_view(b) by {
        assert(strings_view(a + b) =~= strings_view(a) + strings_view(b));
    }
}

} // verus!
