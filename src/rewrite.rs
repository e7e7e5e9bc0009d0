//! The call-site rewriter. A module comes in as the list of events that a
//! walk of its syntax tree meets, in order; the rewriter keeps track of the
//! names in scope, finds the calls that name a native library, and queues
//! the text that replaces each resolvable one.
use vstd::prelude::*;
use crate::paths::{starts_with, split_on, strings_view, split_list, str_starts_with};
use crate::scope::{Scope, bindings_view, constants_view, binding_in, constant_in};

verus! {

/// A range of character offsets into the source text, end excluded.
#[derive(Clone, Copy)]
pub struct Span {
    pub start: usize,
    pub end: usize,
}

/// An expression where a library name may stand.
pub enum Arg {
    /// A string literal, without interpolation.
    Str { range: Span, value: String },
    /// An interpolated string (an f-string).
    Interpolated,
    /// A bare name.
    Name { range: Span, id: String },
    /// Anything else.
    Other,
}

/// The callee of a call.
pub enum Callee {
    /// A bare name.
    Name(String),
    /// An attribute chain `a.b.c`, as its names in order.
    Path(Vec<String>),
    /// Anything else.
    Other,
}

/// What a walk of the syntax tree meets, in the order it meets it.
pub enum Event {
    /// One name of an `import` statement.
    Import { module: String, asname: Option<String> },
    /// One name of a `from module import` statement.
    ImportFrom { module: String, name: String, asname: Option<String> },
    /// A function or class definition; its body follows, then `EndDefine`.
    Define { name: String },
    /// The end of the body of the innermost definition.
    EndDefine,
    /// An assignment of `value` to the bare name `target`; the events of
    /// the value follow.
    Assign { target: String, value: Arg },
    /// A call; the events of its arguments are the next `inner` ones.
    Call { range: Span, callee: Callee, first_arg: Option<Arg>, inner: usize },
}

/// The three callables whose first argument names a library.
#[derive(PartialEq, Eq, Structural, Clone, Copy)]
pub enum Target {
    /// `ctypes.util.find_library`
    FindLibrary,
    /// `ctypes.CDLL`
    Cdll,
    /// `ctypes.cdll.LoadLibrary`
    LoadLibrary,
}

/// Text to put in place of a range of the source.
pub struct Replacement {
    pub range: Span,
    pub text: String,
}

/// The outcome of looking a library up: its path, or `None` where it was
/// not found.
pub struct Lookup {
    pub name: String,
    pub path: Option<String>,
}

pub enum RewriteError {
    /// The library was not found and failure is not allowed for it.
    Unresolved(String),
    /// The library has not been looked up yet: look it up and start again.
    NotLookedUp(String),
}

pub enum WalkError {
    Unresolved(Seq<char>),
    NotLookedUp(Seq<char>),
}

/// What the walk has gathered so far.
pub struct WalkState {
    pub bindings: Seq<(Seq<char>, Option<(Seq<char>, Seq<char>)>)>,
    pub constants: Seq<(Seq<char>, Option<Seq<char>>)>,
    pub frames: Seq<(int, int)>,
    pub reps: Seq<(int, int, Seq<char>)>,
}

pub open spec fn initial_state() -> WalkState {
    WalkState {
        bindings: Seq::empty(),
        constants: Seq::empty(),
        frames: Seq::empty(),
        reps: Seq::empty(),
    }
}

pub open spec fn rep_view(r: Replacement) -> (int, int, Seq<char>) {
    (r.range.start as int, r.range.end as int, r.text@)
}

pub open spec fn reps_view(v: Seq<Replacement>) -> Seq<(int, int, Seq<char>)> {
    v.map_values(|r: Replacement| rep_view(r))
}

pub open spec fn lookups_view(v: Seq<Lookup>) -> Seq<(Seq<char>, Option<Seq<char>>)> {
    v.map_values(|l: Lookup| (l.name@, match l.path {
        Some(p) => Some(p@),
        None => None,
    }))
}

pub open spec fn error_view(e: RewriteError) -> WalkError {
    match e {
        RewriteError::Unresolved(n) => WalkError::Unresolved(n@),
        RewriteError::NotLookedUp(n) => WalkError::NotLookedUp(n@),
    }
}

/// A module whose plain imports are tracked: `ctypes` and its submodules.
pub open spec fn tracked_module(m: Seq<char>) -> bool {
    m == "ctypes"@ || starts_with(m, "ctypes."@)
}

/// A module whose names, imported with `from`, are tracked.
pub open spec fn tracked_from_module(m: Seq<char>) -> bool {
    m == "ctypes"@ || m == "ctypes.util"@ || m == "ctypes.cdll"@
}

pub open spec fn alias_of(name: Seq<char>, asname: Option<String>) -> Seq<char> {
    match asname {
        Some(a) => a@,
        None => name,
    }
}

pub open spec fn target_path(t: Target) -> Seq<char> {
    match t {
        Target::FindLibrary => "ctypes.util.find_library"@,
        Target::Cdll => "ctypes.CDLL"@,
        Target::LoadLibrary => "ctypes.cdll.LoadLibrary"@,
    }
}

/// The recognized target that a binding stands for.
pub open spec fn target_of(b: Option<(Seq<char>, Seq<char>)>) -> Option<Target> {
    match b {
        Some((m, o)) => if m == "ctypes.util"@ && o == "find_library"@ {
            Some(Target::FindLibrary)
        } else if m == "ctypes"@ && o == "CDLL"@ {
            Some(Target::Cdll)
        } else if m == "ctypes.cdll"@ && o == "LoadLibrary"@ {
            Some(Target::LoadLibrary)
        } else {
            None
        },
        None => None,
    }
}

/// Names joined with dots.
pub open spec fn dotted(parts: Seq<Seq<char>>) -> Seq<char>
    decreases parts.len(),
{
    if parts.len() == 0 {
        Seq::empty()
    } else if parts.len() == 1 {
        parts[0]
    } else {
        dotted(parts.drop_last()) + seq!['.'] + parts.last()
    }
}

/// The dotted name that a binding stands for: the module itself for a
/// plain import, the module's member for a `from` import.
pub open spec fn qualified(m: Seq<char>, o: Seq<char>) -> Seq<char> {
    if m == o {
        m
    } else {
        m + seq!['.'] + o
    }
}

/// Whether an attribute chain names `target`: its first name is put in the
/// place of what it stands for, where it stands for anything, and the
/// dotted result is compared.
pub open spec fn path_matches(
    bindings: Seq<(Seq<char>, Option<(Seq<char>, Seq<char>)>)>,
    path: Seq<Seq<char>>,
    target: Seq<char>,
) -> bool {
    path.len() > 0 && match binding_in(bindings, path[0]) {
        Some((m, o)) => dotted(seq![qualified(m, o)] + path.skip(1)) == target,
        None => path == split_on(target, '.'),
    }
}

pub open spec fn classify(
    bindings: Seq<(Seq<char>, Option<(Seq<char>, Seq<char>)>)>,
    callee: Callee,
) -> Option<Target> {
    match callee {
        Callee::Name(n) => target_of(binding_in(bindings, n@)),
        Callee::Path(p) => {
            let pv = strings_view(p@);
            if path_matches(bindings, pv, target_path(Target::FindLibrary)) {
                Some(Target::FindLibrary)
            } else if path_matches(bindings, pv, target_path(Target::Cdll)) {
                Some(Target::Cdll)
            } else if path_matches(bindings, pv, target_path(Target::LoadLibrary)) {
                Some(Target::LoadLibrary)
            } else {
                None
            }
        },
        Callee::Other => None,
    }
}

/// The literal an argument stands for: a plain string literal, or a name
/// bound to one.
pub open spec fn arg_value(constants: Seq<(Seq<char>, Option<Seq<char>>)>, a: Arg) -> Option<Seq<char>> {
    match a {
        Arg::Str { value, .. } => Some(value@),
        Arg::Name { id, .. } => constant_in(constants, id@),
        _ => None,
    }
}

pub open spec fn arg_span(a: Arg) -> Span {
    match a {
        Arg::Str { range, .. } => range,
        Arg::Name { range, .. } => range,
        _ => Span { start: 0, end: 0 },
    }
}

/// The first lookup of `n`.
pub open spec fn lookup_in(t: Seq<(Seq<char>, Option<Seq<char>>)>, n: Seq<char>) -> Option<Option<Seq<char>>>
    decreases t.len(),
{
    if t.len() == 0 {
        None
    } else if t[0].0 == n {
        Some(t[0].1)
    } else {
        lookup_in(t.skip(1), n)
    }
}

pub open spec fn quoted(p: Seq<char>) -> Seq<char> {
    seq!['"'] + p + seq!['"']
}

pub open spec fn clamp(k: int, n: int) -> int {
    if k <= n {
        k
    } else {
        n
    }
}

/// What a call does to the walk: the state after it, and whether the walk
/// skips its arguments.
pub open spec fn call_step(
    range: Span,
    callee: Callee,
    first_arg: Option<Arg>,
    st: WalkState,
    allow: Seq<Seq<char>>,
    table: Seq<(Seq<char>, Option<Seq<char>>)>,
) -> Result<(WalkState, bool), WalkError> {
    match classify(st.bindings, callee) {
        None => Ok((st, false)),
        Some(t) => match first_arg {
            None => Ok((st, false)),
            Some(a) => match arg_value(st.constants, a) {
                None => Ok((st, false)),
                Some(v) => match lookup_in(table, v) {
                    None => Err(WalkError::NotLookedUp(v)),
                    Some(Some(p)) => {
                        let span = if t == Target::FindLibrary {
                            range
                        } else {
                            arg_span(a)
                        };
                        Ok((
                            WalkState {
                                reps: st.reps.push((span.start as int, span.end as int, quoted(p))),
                                ..st
                            },
                            t == Target::FindLibrary,
                        ))
                    },
                    Some(None) => if allow.contains(v) {
                        Ok((st, false))
                    } else {
                        Err(WalkError::Unresolved(v))
                    },
                },
            },
        },
    }
}

/// What one event does to the walk.
pub open spec fn step(
    ev: Event,
    st: WalkState,
    allow: Seq<Seq<char>>,
    table: Seq<(Seq<char>, Option<Seq<char>>)>,
) -> Result<(WalkState, bool), WalkError> {
    match ev {
        Event::Import { module, asname } => Ok((
            WalkState {
                bindings: st.bindings.push((
                    alias_of(module@, asname),
                    Some((if tracked_module(module@) { module@ } else { "non-ctypes"@ }, module@)),
                )),
                ..st
            },
            false,
        )),
        Event::ImportFrom { module, name, asname } => Ok((
            WalkState {
                bindings: st.bindings.push((
                    alias_of(name@, asname),
                    Some((if tracked_from_module(module@) { module@ } else { "non-ctypes"@ }, name@)),
                )),
                ..st
            },
            false,
        )),
        Event::Define { name } => Ok((
            WalkState {
                bindings: st.bindings.push((name@, None)),
                frames: st.frames.push((st.bindings.len() + 1int, st.constants.len() as int)),
                ..st
            },
            false,
        )),
        Event::EndDefine => Ok((
            if st.frames.len() > 0 {
                WalkState {
                    bindings: st.bindings.take(clamp(st.frames.last().0, st.bindings.len() as int)),
                    constants: st.constants.take(clamp(st.frames.last().1, st.constants.len() as int)),
                    frames: st.frames.drop_last(),
                    ..st
                }
            } else {
                st
            },
            false,
        )),
        Event::Assign { target, value } => Ok((
            WalkState { constants: st.constants.push((target@, arg_value(st.constants, value))), ..st },
            false,
        )),
        Event::Call { range, callee, first_arg, inner } => call_step(range, callee, first_arg, st, allow, table),
    }
}

/// Where the walk goes after event `i`.
pub open spec fn next_index(events: Seq<Event>, i: int, skip: bool) -> int {
    let n = if skip {
        match events[i] {
            Event::Call { inner, .. } => i + 1 + inner,
            _ => i + 1,
        }
    } else {
        i + 1
    };
    clamp(n, events.len() as int)
}

/// The walk over the events from `i` on.
pub open spec fn walk(
    events: Seq<Event>,
    i: int,
    st: WalkState,
    allow: Seq<Seq<char>>,
    table: Seq<(Seq<char>, Option<Seq<char>>)>,
) -> Result<WalkState, WalkError>
    decreases events.len() - i,
{
    if i < 0 || i >= events.len() {
        Ok(st)
    } else {
        match step(events[i], st, allow, table) {
            Err(e) => Err(e),
            Ok((s2, skip)) => walk(events, next_index(events, i, skip), s2, allow, table),
        }
    }
}

/// Whether two texts are equal.
pub fn str_eq(a: &str, b: &str) -> (r: bool)
    ensures
        r == (a@ == b@),
{
    String::from_str(a) == String::from_str(b)
}

/// `"` + `p` + `"`: a Python string literal for a path.
pub fn quote(p: &String) -> (r: String)
    ensures
        r@ == quoted(p@),
{
    let mut r = String::from_str("\"");
    r.append(p.as_str());
    r.append("\"");
    proof {
        reveal_strlit("\"");
    }
    assert(r@ =~= quoted(p@));
    r
}

/// Whether `v` is among `items`.
pub fn contains_string(items: &Vec<String>, v: &String) -> (r: bool)
    ensures
        r == strings_view(items@).contains(v@),
{
    let ghost sv = strings_view(items@);
    let mut i: usize = 0;
    while i < items.len()
        invariant
            i <= items@.len(),
            sv == strings_view(items@),
            forall|k: int| 0 <= k < i ==> sv[k] != v@,
        decreases items.len() - i,
    {
        if items[i] == *v {
            assert(sv[i as int] == v@);
            return true;
        }
        i = i + 1;
    }
    false
}

/// The first lookup of `name`: `Some(path)` or `None` where one was made.
pub fn find_lookup(lookups: &Vec<Lookup>, name: &String) -> (r: Option<Option<String>>)
    ensures
        lookup_in(lookups_view(lookups@), name@) == match r {
            Some(Some(p)) => Some(Some(p@)),
            Some(None) => Some(None),
            None => None::<Option<Seq<char>>>,
        },
{
    let ghost t = lookups_view(lookups@);
    assert(t.skip(0) =~= t);
    let mut i: usize = 0;
    while i < lookups.len()
        invariant
            i <= lookups@.len(),
            t == lookups_view(lookups@),
            lookup_in(t, name@) == lookup_in(t.skip(i as int), name@),
        decreases lookups.len() - i,
    {
        assert(t.skip(i as int).skip(1) =~= t.skip(i as int + 1));
        assert(t.skip(i as int)[0] == t[i as int]);
        if lookups[i].name == *name {
            return match &lookups[i].path {
                Some(p) => Some(Some(p.clone())),
                None => Some(None),
            };
        }
        i = i + 1;
    }
    None
}

pub open spec fn frames_view(f: Seq<(usize, usize)>) -> Seq<(int, int)> {
    f.map_values(|x: (usize, usize)| (x.0 as int, x.1 as int))
}

/// The rewriter's state while it walks one module.
pub struct Replacer {
    pub scope: Scope,
    /// For each open definition, the lengths the scope's lists had when
    /// its body began.
    pub frames: Vec<(usize, usize)>,
    pub replacements: Vec<Replacement>,
}

impl Replacer {
    pub open spec fn state(&self) -> WalkState {
        WalkState {
            bindings: bindings_view(self.scope.bindings@),
            constants: constants_view(self.scope.constants@),
            frames: frames_view(self.frames@),
            reps: reps_view(self.replacements@),
        }
    }

    pub fn new() -> (r: Replacer)
        ensures
            r.state() == initial_state(),
    {
        let r = Replacer { scope: Scope::new(), frames: Vec::new(), replacements: Vec::new() };
        assert(r.state().bindings =~= Seq::empty());
        assert(r.state().constants =~= Seq::empty());
        assert(r.state().frames =~= Seq::empty());
        assert(r.state().reps =~= Seq::empty());
        r
    }

    /// The literal that an argument stands for.
    pub fn get_string_value(&self, a: &Arg) -> (r: Option<String>)
        ensures
            match r {
                Some(v) => arg_value(self.state().constants, *a) == Some(v@),
                None => arg_value(self.state().constants, *a) is None,
            },
    {
        match a {
            Arg::Str { value, .. } => Some(value.clone()),
            Arg::Name { id, .. } => self.scope.get_constant(id.as_str()),
            _ => None,
        }
    }

    /// `m`, then the names of `path` after its first, joined with dots.
    fn dotted_from(m: &String, path: &Vec<String>) -> (r: String)
        requires
            path@.len() >= 1,
        ensures
            r@ == dotted(seq![m@] + strings_view(path@).skip(1)),
    {
        let ghost pv = strings_view(path@);
        let mut r = m.clone();
        assert(seq![m@] + pv.subrange(1, 1) =~= seq![m@]);
        let mut k: usize = 1;
        while k < path.len()
            invariant
                1 <= k <= path@.len(),
                pv == strings_view(path@),
                r@ == dotted(seq![m@] + pv.subrange(1, k as int)),
            decreases path.len() - k,
        {
            let ghost before = seq![m@] + pv.subrange(1, k as int);
            assert((seq![m@] + pv.subrange(1, k as int + 1)).drop_last() =~= before);
            r.append(".");
            r.append(path[k].as_str());
            proof {
                reveal_strlit(".");
            }
            assert(r@ =~= dotted(seq![m@] + pv.subrange(1, k as int + 1)));
            k = k + 1;
        }
        assert(pv.subrange(1, path@.len() as int) =~= pv.skip(1));
        r
    }

    /// Whether an attribute chain names `target`.
    pub fn matches_path(&self, path: &Vec<String>, target: &str) -> (r: bool)
        ensures
            r == path_matches(self.state().bindings, strings_view(path@), target@),
    {
        if path.len() == 0 {
            return false;
        }
        assert(strings_view(path@)[0] == path@[0]@);
        match self.scope.lookup(path[0].as_str()) {
            Some((m, o)) => {
                let ghost mv = m@;
                let ghost ov = o@;
                let q = if m == o {
                    m
                } else {
                    let mut q = m;
                    q.append(".");
                    q.append(o.as_str());
                    proof {
                        reveal_strlit(".");
                    }
                    assert(q@ =~= mv + seq!['.'] + ov);
                    q
                };
                assert(q@ == qualified(mv, ov));
                let d = Self::dotted_from(&q, path);
                str_eq(d.as_str(), target)
            },
            None => {
                let parts = split_list(target, '.');
                if path.len() != parts.len() {
                    return false;
                }
                let ghost pv = strings_view(path@);
                let ghost tv = strings_view(parts@);
                let mut k: usize = 0;
                while k < path.len()
                    invariant
                        k <= path@.len(),
                        path@.len() == parts@.len(),
                        pv == strings_view(path@),
                        tv == strings_view(parts@),
                        tv == split_on(target@, '.'),
                        pv.len() >= 1,
                        binding_in(self.state().bindings, pv[0]) is None,
                        forall|j: int| 0 <= j < k ==> pv[j] == tv[j],
                    decreases path.len() - k,
                {
                    if path[k] != parts[k] {
                        assert(pv[k as int] != tv[k as int]);
                        return false;
                    }
                    k = k + 1;
                }
                assert(pv =~= tv);
                true
            },
        }
    }

    /// The recognized target that a callee names, if any.
    pub fn classify_call(&self, callee: &Callee) -> (r: Option<Target>)
        ensures
            r == classify(self.state().bindings, *callee),
    {
        match callee {
            Callee::Name(n) => match self.scope.lookup(n.as_str()) {
                Some((m, o)) => {
                    if str_eq(m.as_str(), "ctypes.util") && str_eq(o.as_str(), "find_library") {
                        Some(Target::FindLibrary)
                    } else if str_eq(m.as_str(), "ctypes") && str_eq(o.as_str(), "CDLL") {
                        Some(Target::Cdll)
                    } else if str_eq(m.as_str(), "ctypes.cdll") && str_eq(o.as_str(), "LoadLibrary") {
                        Some(Target::LoadLibrary)
                    } else {
                        None
                    }
                },
                None => None,
            },
            Callee::Path(p) => {
                if self.matches_path(p, "ctypes.util.find_library") {
                    Some(Target::FindLibrary)
                } else if self.matches_path(p, "ctypes.CDLL") {
                    Some(Target::Cdll)
                } else if self.matches_path(p, "ctypes.cdll.LoadLibrary") {
                    Some(Target::LoadLibrary)
                } else {
                    None
                }
            },
            Callee::Other => None,
        }
    }

    /// Queues the replacement for a call, where it names a recognized target
    /// with a resolvable first argument; says whether the whole call went.
    pub fn process_call(
        &mut self,
        range: Span,
        callee: &Callee,
        first_arg: &Option<Arg>,
        allow_lib_fail: &Vec<String>,
        lookups: &Vec<Lookup>,
    ) -> (r: Result<bool, RewriteError>)
        ensures
            match call_step(range, *callee, *first_arg, old(self).state(), strings_view(allow_lib_fail@), lookups_view(lookups@)) {
                Ok((s2, skip)) => r matches Ok(b) && b == skip && final(self).state() == s2,
                Err(e) => r matches Err(x) && error_view(x) == e && final(self).state() == old(self).state(),
            },
    {
        let t = match self.classify_call(callee) {
            Some(t) => t,
            None => return Ok(false),
        };
        let a = match first_arg {
            Some(a) => a,
            None => return Ok(false),
        };
        let v = match self.get_string_value(a) {
            Some(v) => v,
            None => return Ok(false),
        };
        match find_lookup(lookups, &v) {
            None => Err(RewriteError::NotLookedUp(v)),
            Some(Some(p)) => {
                let span = if t == Target::FindLibrary {
                    range
                } else {
                    match a {
                        Arg::Str { range, .. } => *range,
                        Arg::Name { range, .. } => *range,
                        _ => Span { start: 0, end: 0 },
                    }
                };
                let rep = Replacement { range: span, text: quote(&p) };
                self.replacements.push(rep);
                assert(reps_view(self.replacements@) =~= reps_view(old(self).replacements@).push(rep_view(rep)));
                Ok(t == Target::FindLibrary)
            },
            Some(None) => {
                if contains_string(allow_lib_fail, &v) {
                    Ok(false)
                } else {
                    Err(RewriteError::Unresolved(v))
                }
            },
        }
    }

    /// One name of an `import` statement, bound under its alias; a module
    /// outside `ctypes` is bound too, so that it hides an earlier import.
    pub fn process_import(&mut self, module: &String, asname: &Option<String>)
        ensures
            final(self).state() == step(
                Event::Import { module: *module, asname: *asname },
                old(self).state(),
                Seq::empty(),
                Seq::empty(),
            )->Ok_0.0,
            final(self).frames == old(self).frames,
            final(self).replacements == old(self).replacements,
    {
        let alias = match asname {
            Some(a) => a.clone(),
            None => module.clone(),
        };
        if str_eq(module.as_str(), "ctypes") || str_starts_with(module.as_str(), "ctypes.") {
            self.scope.add_binding(alias, module.clone(), module.clone());
        } else {
            self.scope.add_binding(alias, String::from_str("non-ctypes"), module.clone());
        }
    }

    /// One name of a `from module import` statement. A name from any other
    /// module is bound too, so that it hides an earlier import.
    pub fn process_import_from(&mut self, module: &String, name: &String, asname: &Option<String>)
        ensures
            final(self).state() == step(
                Event::ImportFrom { module: *module, name: *name, asname: *asname },
                old(self).state(),
                Seq::empty(),
                Seq::empty(),
            )->Ok_0.0,
            final(self).frames == old(self).frames,
            final(self).replacements == old(self).replacements,
    {
        let alias = match asname {
            Some(a) => a.clone(),
            None => name.clone(),
        };
        let m = module.as_str();
        if str_eq(m, "ctypes") || str_eq(m, "ctypes.util") || str_eq(m, "ctypes.cdll") {
            self.scope.add_binding(alias, module.clone(), name.clone());
        } else {
            self.scope.add_binding(alias, String::from_str("non-ctypes"), name.clone());
        }
    }

    /// A definition of `name` hides whatever `name` was bound to.
    pub fn check_shadowing(&mut self, name: &String)
        ensures
            bindings_view(final(self).scope.bindings@) == bindings_view(old(self).scope.bindings@).push((name@, None)),
            final(self).scope.bindings@.len() == old(self).scope.bindings@.len() + 1,
            final(self).scope.constants == old(self).scope.constants,
            final(self).frames == old(self).frames,
            final(self).replacements == old(self).replacements,
    {
        self.scope.remove_binding(name.clone());
        assert(bindings_view(self.scope.bindings@).len() == self.scope.bindings@.len());
        assert(bindings_view(old(self).scope.bindings@).len() == old(self).scope.bindings@.len());
    }

    /// Takes one event into account; says whether the walk skips the
    /// events of the call's arguments.
    pub fn visit_event(&mut self, ev: &Event, allow_lib_fail: &Vec<String>, lookups: &Vec<Lookup>) -> (r: Result<bool, RewriteError>)
        ensures
            match step(*ev, old(self).state(), strings_view(allow_lib_fail@), lookups_view(lookups@)) {
                Ok((s2, skip)) => r matches Ok(b) && b == skip && final(self).state() == s2,
                Err(e) => r matches Err(x) && error_view(x) == e && final(self).state() == old(self).state(),
            },
    {
        match ev {
            Event::Import { module, asname } => {
                self.process_import(module, asname);
                Ok(false)
            },
            Event::ImportFrom { module, name, asname } => {
                self.process_import_from(module, name, asname);
                Ok(false)
            },
            Event::Define { name } => {
                self.check_shadowing(name);
                let mark = (self.scope.bindings.len(), self.scope.constants.len());
                self.frames.push(mark);
                assert(frames_view(self.frames@) =~= frames_view(old(self).frames@).push((mark.0 as int, mark.1 as int)));
                Ok(false)
            },
            Event::EndDefine => {
                if self.frames.len() > 0 {
                    let ghost fv = frames_view(self.frames@);
                    let mark = self.frames.pop().unwrap();
                    assert(frames_view(self.frames@) =~= fv.drop_last());
                    self.scope.restore(mark.0, mark.1);
                }
                Ok(false)
            },
            Event::Assign { target, value } => {
                match self.get_string_value(value) {
                    Some(v) => self.scope.add_constant(target.clone(), v),
                    None => self.scope.remove_constant(target.clone()),
                }
                Ok(false)
            },
            Event::Call { range, callee, first_arg, inner } => {
                self.process_call(*range, callee, first_arg, allow_lib_fail, lookups)
            },
        }
    }
}

/// The replacements for a module, given as the events of a walk of its
/// syntax tree: each lookup that the walk needs must be among `lookups`.
pub fn rewrite(events: &Vec<Event>, allow_lib_fail: &Vec<String>, lookups: &Vec<Lookup>) -> (r: Result<
    Vec<Replacement>,
    RewriteError,
>)
    ensures
        match walk(events@, 0, initial_state(), strings_view(allow_lib_fail@), lookups_view(lookups@)) {
            Ok(st) => r matches Ok(v) && reps_view(v@) == st.reps,
            Err(e) => r matches Err(x) && error_view(x) == e,
        },
{
    let ghost allow = strings_view(allow_lib_fail@);
    let ghost table = lookups_view(lookups@);
    let mut rp = Replacer::new();
    let mut i: usize = 0;
    while i < events.len()
        invariant
            i <= events@.len(),
            allow == strings_view(allow_lib_fail@),
            table == lookups_view(lookups@),
            walk(events@, 0, initial_state(), allow, table) == walk(events@, i as int, rp.state(), allow, table),
        decreases events.len() - i,
    {
        let skip = match rp.visit_event(&events[i], allow_lib_fail, lookups) {
            Ok(s) => s,
            Err(e) => return Err(e),
        };
        let next: usize = if skip {
            match &events[i] {
                Event::Call { inner, .. } => {
                    if *inner <= events.len() - i - 1 {
                        i + 1 + *inner
                    } else {
                        events.len()
                    }
                },
                _ => i + 1,
            }
        } else {
            i + 1
        };
        assert(next as int == next_index(events@, i as int, skip));
        i = next;
    }
    Ok(rp.replacements)
}

/// A definition shadows an imported name: inside its body the name stands
/// for no target, and after the body it still stands for none.
pub proof fn lemma_definition_shadows(
    st: WalkState,
    name: String,
    allow: Seq<Seq<char>>,
    table: Seq<(Seq<char>, Option<Seq<char>>)>,
)
    ensures
        ({
            let inside = step(Event::Define { name }, st, allow, table)->Ok_0.0;
            let after = step(Event::EndDefine, inside, allow, table)->Ok_0.0;
            &&& step(Event::Define { name }, st, allow, table) is Ok
            &&& classify(inside.bindings, Callee::Name(name)) is None
            &&& classify(after.bindings, Callee::Name(name)) is None
            &&& binding_in(after.bindings, name@) is None
        }),
{
    let inside = step(Event::Define { name }, st, allow, table)->Ok_0.0;
    let b2 = st.bindings.push((name@, None::<(Seq<char>, Seq<char>)>));
    assert(inside.bindings == b2);
    assert(b2.drop_last() =~= st.bindings);
    let after = step(Event::EndDefine, inside, allow, table)->Ok_0.0;
    assert(inside.frames.last() == (st.bindings.len() + 1int, st.constants.len() as int));
    assert(after.bindings =~= b2);
}

/// An interpolated string is never taken for a library name: a call whose
/// first argument is one changes nothing, and a name assigned one holds no
/// literal afterwards.
pub proof fn lemma_interpolated_not_resolvable(
    st: WalkState,
    range: Span,
    callee: Callee,
    target: String,
    allow: Seq<Seq<char>>,
    table: Seq<(Seq<char>, Option<Seq<char>>)>,
)
    ensures
        call_step(range, callee, Some(Arg::Interpolated), st, allow, table) == Ok::<(WalkState, bool), WalkError>((st, false)),
        constant_in(
            step(Event::Assign { target, value: Arg::Interpolated }, st, allow, table)->Ok_0.0.constants,
            target@,
        ) is None,
{
}

/// Whether an event binds `name` by an import.
pub open spec fn imports_as(ev: Event, name: Seq<char>) -> bool {
    match ev {
        Event::Import { module, asname } => alias_of(module@, asname) == name,
        Event::ImportFrom { name: n, asname, .. } => alias_of(n@, asname) == name,
        _ => false,
    }
}

/// The shadow that a module-level definition of `name` left: the first `p`
/// bindings end with it and stay as they are, no later binding of `name`
/// stands for an import, and every open definition began after it.
pub open spec fn shadow_kept(st: WalkState, name: Seq<char>, p: int, before: Seq<(Seq<char>, Option<(Seq<char>, Seq<char>)>)>) -> bool {
    &&& 0 < p <= st.bindings.len()
    &&& st.bindings.take(p) == before
    &&& before.last() == (name, None::<(Seq<char>, Seq<char>)>)
    &&& forall|j: int| p <= j < st.bindings.len() && (#[trigger] st.bindings[j]).0 == name ==> st.bindings[j].1 is None
    &&& forall|j: int| 0 <= j < st.frames.len() ==> p <= (#[trigger] st.frames[j]).0
}

proof fn lemma_shadow_unbound(bs: Seq<(Seq<char>, Option<(Seq<char>, Seq<char>)>)>, name: Seq<char>, p: int)
    requires
        0 < p <= bs.len(),
        bs[p - 1] == (name, None::<(Seq<char>, Seq<char>)>),
        forall|j: int| p <= j < bs.len() && (#[trigger] bs[j]).0 == name ==> bs[j].1 is None,
    ensures
        binding_in(bs, name) is None,
    decreases bs.len(),
{
    if bs.len() > p && bs.last().0 != name {
        let d = bs.drop_last();
        assert forall|j: int| p <= j < d.len() && (#[trigger] d[j]).0 == name implies d[j].1 is None by {
            assert(d[j] == bs[j]);
        }
        lemma_shadow_unbound(d, name, p);
    }
}

/// While the shadow of a module-level definition of `name` is kept, `name`
/// stands for no target, and every event but an import under `name` keeps
/// the shadow.
pub proof fn lemma_shadow_step(
    ev: Event,
    st: WalkState,
    name: Seq<char>,
    p: int,
    before: Seq<(Seq<char>, Option<(Seq<char>, Seq<char>)>)>,
    allow: Seq<Seq<char>>,
    table: Seq<(Seq<char>, Option<Seq<char>>)>,
)
    requires
        shadow_kept(st, name, p, before),
    ensures
        binding_in(st.bindings, name) is None,
        !imports_as(ev, name) && step(ev, st, allow, table) is Ok ==> shadow_kept(
            step(ev, st, allow, table)->Ok_0.0,
            name,
            p,
            before,
        ),
{
    assert(st.bindings[p - 1] == before.last());
    lemma_shadow_unbound(st.bindings, name, p);
    if !imports_as(ev, name) && step(ev, st, allow, table) is Ok {
        let s2 = step(ev, st, allow, table)->Ok_0.0;
        match ev {
            Event::EndDefine => {
                if st.frames.len() > 0 {
                    assert(st.frames.last() == st.frames[st.frames.len() - 1]);
                    assert(s2.bindings.take(p) =~= st.bindings.take(p));
                    assert forall|j: int| p <= j < s2.bindings.len() && (#[trigger] s2.bindings[j]).0 == name implies s2.bindings[j].1 is None by {
                        assert(s2.bindings[j] == st.bindings[j]);
                    }
                    assert forall|j: int| 0 <= j < s2.frames.len() implies p <= (#[trigger] s2.frames[j]).0 by {
                        assert(s2.frames[j] == st.frames[j]);
                    }
                }
            },
            Event::Call { .. } => {},
            Event::Assign { .. } => {},
            _ => {
                assert(s2.bindings.take(p) =~= st.bindings.take(p));
                assert forall|j: int| p <= j < s2.bindings.len() && (#[trigger] s2.bindings[j]).0 == name implies s2.bindings[j].1 is None by {
                    if j < st.bindings.len() {
                        assert(s2.bindings[j] == st.bindings[j]);
                    }
                }
                assert forall|j: int| 0 <= j < s2.frames.len() implies p <= (#[trigger] s2.frames[j]).0 by {
                    if j < st.frames.len() {
                        assert(s2.frames[j] == st.frames[j]);
                    }
                }
            },
        }
    }
}

/// A module-level definition of `name` shadows its import: inside the
/// body and after it, up to the end of the walk, `name` stands for no
/// target, as long as no import binds `name` again.
pub proof fn lemma_shadow_walk(
    events: Seq<Event>,
    i: int,
    st: WalkState,
    name: Seq<char>,
    p: int,
    before: Seq<(Seq<char>, Option<(Seq<char>, Seq<char>)>)>,
    allow: Seq<Seq<char>>,
    table: Seq<(Seq<char>, Option<Seq<char>>)>,
)
    requires
        0 <= i,
        shadow_kept(st, name, p, before),
        forall|j: int| i <= j < events.len() ==> !imports_as(#[trigger] events[j], name),
    ensures
        walk(events, i, st, allow, table) is Ok ==> binding_in(walk(events, i, st, allow, table)->Ok_0.bindings, name) is None,
    decreases events.len() - i,
{
    lemma_shadow_step(events[if i < events.len() { i } else { 0 }], st, name, p, before, allow, table);
    if i < events.len() {
        match step(events[i], st, allow, table) {
            Ok((s2, skip)) => {
                lemma_shadow_walk(events, next_index(events, i, skip), s2, name, p, before, allow, table);
            },
            Err(_) => {},
        }
    }
}

/// A definition at module level, where no definition is open, leaves its
/// shadow kept.
pub proof fn lemma_definition_starts_shadow(
    st: WalkState,
    name: String,
    allow: Seq<Seq<char>>,
    table: Seq<(Seq<char>, Option<Seq<char>>)>,
)
    requires
        st.frames.len() == 0,
    ensures
        ({
            let s2 = step(Event::Define { name }, st, allow, table)->Ok_0.0;
            shadow_kept(s2, name@, s2.bindings.len() as int, s2.bindings)
        }),
{
    let s2 = step(Event::Define { name }, st, allow, table)->Ok_0.0;
    assert(s2.bindings.take(s2.bindings.len() as int) =~= s2.bindings);
}

} // verus!
