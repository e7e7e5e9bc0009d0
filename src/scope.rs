//! The names in scope while a module is walked: which imports they stand
//! for, and which literal strings they hold.
use vstd::prelude::*;

verus! {

/// A name bound to `(module, original name)`, or a name unbound again by a
/// definition of its own.
pub struct Binding {
    pub name: String,
    pub target: Option<(String, String)>,
}

/// A name bound to a literal string, or a name bound again to something
/// that is not one.
pub struct Constant {
    pub name: String,
    pub value: Option<String>,
}

pub open spec fn binding_view(b: Binding) -> (Seq<char>, Option<(Seq<char>, Seq<char>)>) {
    (b.name@, match b.target {
        Some(t) => Some((t.0@, t.1@)),
        None => None,
    })
}

pub open spec fn constant_view(c: Constant) -> (Seq<char>, Option<Seq<char>>) {
    (c.name@, match c.value {
        Some(v) => Some(v@),
        None => None,
    })
}

pub open spec fn bindings_view(v: Seq<Binding>) -> Seq<(Seq<char>, Option<(Seq<char>, Seq<char>)>)> {
    v.map_values(|b: Binding| binding_view(b))
}

pub open spec fn constants_view(v: Seq<Constant>) -> Seq<(Seq<char>, Option<Seq<char>>)> {
    v.map_values(|c: Constant| constant_view(c))
}

/// What `n` stands for: the latest entry for it decides.
pub open spec fn binding_in(b: Seq<(Seq<char>, Option<(Seq<char>, Seq<char>)>)>, n: Seq<char>) -> Option<(Seq<char>, Seq<char>)>
    decreases b.len(),
{
    if b.len() == 0 {
        None
    } else if b.last().0 == n {
        b.last().1
    } else {
        binding_in(b.drop_last(), n)
    }
}

/// The literal that `n` holds: the latest entry for it decides.
pub open spec fn constant_in(c: Seq<(Seq<char>, Option<Seq<char>>)>, n: Seq<char>) -> Option<Seq<char>>
    decreases c.len(),
{
    if c.len() == 0 {
        None
    } else if c.last().0 == n {
        c.last().1
    } else {
        constant_in(c.drop_last(), n)
    }
}

/// The bindings and constants in view. Entries are only ever added, so an
/// enclosing scope comes back by cutting both lists to their earlier length.
pub struct Scope {
    pub bindings: Vec<Binding>,
    pub constants: Vec<Constant>,
}

impl Scope {
    pub open spec fn binding_of(&self, n: Seq<char>) -> Option<(Seq<char>, Seq<char>)> {
        binding_in(bindings_view(self.bindings@), n)
    }

    pub open spec fn constant_of(&self, n: Seq<char>) -> Option<Seq<char>> {
        constant_in(constants_view(self.constants@), n)
    }

    pub fn new() -> (r: Scope)
        ensures
            r.bindings@.len() == 0,
            r.constants@.len() == 0,
            forall|n: Seq<char>| r.binding_of(n) is None && r.constant_of(n) is None,
    {
        let r = Scope { bindings: Vec::new(), constants: Vec::new() };
        assert(bindings_view(r.bindings@) =~= Seq::empty());
        assert(constants_view(r.constants@) =~= Seq::empty());
        r
    }

    /// `name` now stands for `original` of `module`.
    pub fn add_binding(&mut self, name: String, module: String, original: String)
        ensures
            bindings_view(final(self).bindings@) == bindings_view(old(self).bindings@).push(
                (name@, Some((module@, original@))),
            ),
            final(self).constants == old(self).constants,
            forall|n: Seq<char>| #[trigger] final(self).binding_of(n) == if n == name@ {
                Some((module@, original@))
            } else {
                old(self).binding_of(n)
            },
    {
        let b = Binding { name, target: Some((module, original)) };
        self.bindings.push(b);
        proof {
            assert(bindings_view(self.bindings@) =~= bindings_view(old(self).bindings@).push(binding_view(b)));
            assert forall|n: Seq<char>| #[trigger] self.binding_of(n) == if n == b.name@ {
                Some((module@, original@))
            } else {
                old(self).binding_of(n)
            } by {
                assert(bindings_view(self.bindings@).drop_last() =~= bindings_view(old(self).bindings@));
            }
        }
    }

    /// `name` no longer stands for any import.
    pub fn remove_binding(&mut self, name: String)
        ensures
            bindings_view(final(self).bindings@) == bindings_view(old(self).bindings@).push((name@, None)),
            final(self).constants == old(self).constants,
            forall|n: Seq<char>| #[trigger] final(self).binding_of(n) == if n == name@ {
                None
            } else {
                old(self).binding_of(n)
            },
    {
        let ghost nm = name@;
        let b = Binding { name, target: None };
        self.bindings.push(b);
        proof {
            assert(bindings_view(self.bindings@) =~= bindings_view(old(self).bindings@).push(binding_view(b)));
            assert forall|n: Seq<char>| #[trigger] self.binding_of(n) == if n == nm {
                None
            } else {
                old(self).binding_of(n)
            } by {
                assert(bindings_view(self.bindings@).drop_last() =~= bindings_view(old(self).bindings@));
            }
        }
    }

    /// What `name` stands for: `(module, original name)`.
    pub fn lookup(&self, name: &str) -> (r: Option<(String, String)>)
        ensures
            match r {
                Some(t) => self.binding_of(name@) == Some((t.0@, t.1@)),
                None => self.binding_of(name@) is None,
            },
    {
        let key = String::from_str(name);
        let ghost bv = bindings_view(self.bindings@);
        let mut i: usize = self.bindings.len();
        assert(bv.take(i as int) =~= bv);
        while i > 0
            invariant
                i <= self.bindings@.len(),
                bv == bindings_view(self.bindings@),
                key@ == name@,
                binding_in(bv, name@) == binding_in(bv.take(i as int), name@),
            decreases i,
        {
            assert(bv.take(i as int).drop_last() =~= bv.take(i as int - 1));
            let b = &self.bindings[i - 1];
            assert(bv.take(i as int).last() == binding_view(*b));
            if b.name == key {
                return match &b.target {
                    Some(t) => Some((t.0.clone(), t.1.clone())),
                    None => None,
                };
            }
            i = i - 1;
        }
        None
    }

    /// `name` now holds the literal `value`.
    pub fn add_constant(&mut self, name: String, value: String)
        ensures
            constants_view(final(self).constants@) == constants_view(old(self).constants@).push((name@, Some(value@))),
            final(self).bindings == old(self).bindings,
            forall|n: Seq<char>| #[trigger] final(self).constant_of(n) == if n == name@ {
                Some(value@)
            } else {
                old(self).constant_of(n)
            },
    {
        let ghost v = value@;
        let c = Constant { name, value: Some(value) };
        self.constants.push(c);
        proof {
            assert(constants_view(self.constants@) =~= constants_view(old(self).constants@).push(constant_view(c)));
            assert forall|n: Seq<char>| #[trigger] self.constant_of(n) == if n == c.name@ {
                Some(v)
            } else {
                old(self).constant_of(n)
            } by {
                assert(constants_view(self.constants@).drop_last() =~= constants_view(old(self).constants@));
            }
        }
    }

    /// `name` no longer holds a literal.
    pub fn remove_constant(&mut self, name: String)
        ensures
            constants_view(final(self).constants@) == constants_view(old(self).constants@).push((name@, None)),
            final(self).bindings == old(self).bindings,
            forall|n: Seq<char>| #[trigger] final(self).constant_of(n) == if n == name@ {
                None
            } else {
                old(self).constant_of(n)
            },
    {
        let ghost nm = name@;
        let c = Constant { name, value: None };
        self.constants.push(c);
        proof {
            assert(constants_view(self.constants@) =~= constants_view(old(self).constants@).push(constant_view(c)));
            assert forall|n: Seq<char>| #[trigger] self.constant_of(n) == if n == nm {
                None
            } else {
                old(self).constant_of(n)
            } by {
                assert(constants_view(self.constants@).drop_last() =~= constants_view(old(self).constants@));
            }
        }
    }

    /// The literal that `name` holds.
    pub fn get_constant(&self, name: &str) -> (r: Option<String>)
        ensures
            match r {
                Some(v) => self.constant_of(name@) == Some(v@),
                None => self.constant_of(name@) is None,
            },
    {
        let key = String::from_str(name);
        let ghost cv = constants_view(self.constants@);
        let mut i: usize = self.constants.len();
        assert(cv.take(i as int) =~= cv);
        while i > 0
            invariant
                i <= self.constants@.len(),
                cv == constants_view(self.constants@),
                key@ == name@,
                constant_in(cv, name@) == constant_in(cv.take(i as int), name@),
            decreases i,
        {
            assert(cv.take(i as int).drop_last() =~= cv.take(i as int - 1));
            let c = &self.constants[i - 1];
            assert(cv.take(i as int).last() == constant_view(*c));
            if c.name == key {
                return match &c.value {
                    Some(v) => Some(v.clone()),
                    None => None,
                };
            }
            i = i - 1;
        }
        None
    }

    /// Cut both lists back to the given lengths, which brings back the
    /// scope as it stood when they were taken.
    pub fn restore(&mut self, n_bindings: usize, n_constants: usize)
        ensures
            bindings_view(final(self).bindings@) == bindings_view(old(self).bindings@).take(
                if n_bindings <= old(self).bindings@.len() { n_bindings as int } else { old(self).bindings@.len() as int },
            ),
            constants_view(final(self).constants@) == constants_view(old(self).constants@).take(
                if n_constants <= old(self).constants@.len() { n_constants as int } else { old(self).constants@.len() as int },
            ),
    {
        self.bindings.truncate(n_bindings);
        self.constants.truncate(n_constants);
        assert(bindings_view(self.bindings@) =~= bindings_view(old(self).bindings@).take(
            if n_bindings <= old(self).bindings@.len() { n_bindings as int } else { old(self).bindings@.len() as int }));
        assert(constants_view(self.constants@) =~= constants_view(old(self).constants@).take(
            if n_constants <= old(self).constants@.len() { n_constants as int } else { old(self).constants@.len() as int }));
    }
}

} // verus!
