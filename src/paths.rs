//! A small model of POSIX paths and colon-separated path lists, over
//! sequences of characters.
use vstd::prelude::*;

verus! {

pub open spec fn starts_with(s: Seq<char>, p: Seq<char>) -> bool {
    p.len() <= s.len() && s.subrange(0, p.len() as int) == p
}

pub open spec fn ends_with(s: Seq<char>, p: Seq<char>) -> bool {
    p.len() <= s.len() && s.subrange(s.len() - p.len(), s.len() as int) == p
}

/// Index of the last occurrence of `c` in `s`, or -1.
pub open spec fn last_index_of(s: Seq<char>, c: char) -> int
    decreases s.len(),
{
    if s.len() == 0 {
        -1
    } else if s.last() == c {
        s.len() - 1
    } else {
        last_index_of(s.drop_last(), c)
    }
}

/// The pieces of `s` between occurrences of `sep`; an empty text is one
/// empty piece.
pub open spec fn split_on(s: Seq<char>, sep: char) -> Seq<Seq<char>>
    decreases s.len(),
{
    if s.len() == 0 {
        seq![Seq::<char>::empty()]
    } else {
        let rest = split_on(s.drop_last(), sep);
        if s.last() == sep {
            rest.push(Seq::<char>::empty())
        } else {
            rest.update(rest.len() - 1, rest.last().push(s.last()))
        }
    }
}

/// The last component of a path: what follows its last `/`.
pub open spec fn basename_of(p: Seq<char>) -> Seq<char> {
    p.skip(last_index_of(p, '/') + 1)
}

/// `dir` joined with `rel`: an absolute `rel` replaces `dir`, an empty `dir`
/// adds nothing, and a separator is put between them where `dir` lacks one.
pub open spec fn join_of(dir: Seq<char>, rel: Seq<char>) -> Seq<char> {
    if rel.len() > 0 && rel[0] == '/' {
        rel
    } else if dir.len() == 0 {
        rel
    } else if dir.last() == '/' {
        dir + rel
    } else {
        dir + seq!['/'] + rel
    }
}

/// A leading `~/` stands for the home directory, where one is known.
pub open spec fn expand_home_of(p: Seq<char>, home: Option<Seq<char>>) -> Seq<char> {
    if starts_with(p, seq!['~', '/']) && home is Some {
        home->Some_0 + p.skip(1)
    } else {
        p
    }
}

pub open spec fn strings_view(v: Seq<String>) -> Seq<Seq<char>> {
    v.map_values(|s: String| s@)
}

pub fn str_starts_with(s: &str, p: &str) -> (r: bool)
    ensures
        r == starts_with(s@, p@),
{
    let n = s.unicode_len();
    let m = p.unicode_len();
    if m > n {
        return false;
    }
    let mut i: usize = 0;
    while i < m
        invariant
            m <= n,
            n == s@.len(),
            m == p@.len(),
            i <= m,
            forall|j: int| 0 <= j < i ==> s@[j] == p@[j],
        decreases m - i,
    {
        if s.get_char(i) != p.get_char(i) {
            assert(s@.subrange(0, m as int)[i as int] != p@[i as int]);
            return false;
        }
        i = i + 1;
    }
    assert(s@.subrange(0, m as int) =~= p@);
    true
}

pub fn str_ends_with(s: &str, p: &str) -> (r: bool)
    ensures
        r == ends_with(s@, p@),
{
    let n = s.unicode_len();
    let m = p.unicode_len();
    if m > n {
        return false;
    }
    let off = n - m;
    let mut i: usize = 0;
    while i < m
        invariant
            m <= n,
            off == n - m,
            n == s@.len(),
            m == p@.len(),
            i <= m,
            forall|j: int| 0 <= j < i ==> s@[off + j] == p@[j],
        decreases m - i,
    {
        if s.get_char(off + i) != p.get_char(i) {
            assert(s@.subrange(off as int, n as int)[i as int] != p@[i as int]);
            return false;
        }
        i = i + 1;
    }
    assert(s@.subrange(off as int, n as int) =~= p@);
    true
}

/// Position of the last `c` in `s`.
pub fn last_index(s: &str, c: char) -> (r: Option<usize>)
    ensures
        match r {
            Some(k) => k < s@.len() && k as int == last_index_of(s@, c),
            None => last_index_of(s@, c) == -1,
        },
{
    let n = s.unicode_len();
    let mut found: Option<usize> = None;
    let mut i: usize = 0;
    while i < n
        invariant
            n == s@.len(),
            i <= n,
            match found {
                Some(k) => k < i && k as int == last_index_of(s@.subrange(0, i as int), c),
                None => last_index_of(s@.subrange(0, i as int), c) == -1,
            },
        decreases n - i,
    {
        assert(s@.subrange(0, i as int + 1).drop_last() =~= s@.subrange(0, i as int));
        if s.get_char(i) == c {
            found = Some(i);
        }
        i = i + 1;
    }
    assert(s@.subrange(0, n as int) =~= s@);
    found
}

/// The text from character `from` to the end.
pub fn skip_chars(s: &str, from: usize) -> (r: String)
    requires
        from <= s@.len(),
    ensures
        r@ == s@.skip(from as int),
{
    let n = s.unicode_len();
    String::from_str(s.substring_char(from, n))
}

/// What follows the last `/` of a path.
pub fn basename(p: &str) -> (r: String)
    ensures
        r@ == basename_of(p@),
{
    let _n = p.unicode_len();
    match last_index(p, '/') {
        Some(k) => skip_chars(p, k + 1),
        None => skip_chars(p, 0),
    }
}

pub fn join_path(dir: &str, rel: &str) -> (r: String)
    ensures
        r@ == join_of(dir@, rel@),
{
    let n = dir.unicode_len();
    let m = rel.unicode_len();
    if m > 0 && rel.get_char(0) == '/' {
        String::from_str(rel)
    } else if n == 0 {
        String::from_str(rel)
    } else if dir.get_char(n - 1) == '/' {
        let mut r = String::from_str(dir);
        r.append(rel);
        r
    } else {
        let mut r = String::from_str(dir);
        r.append("/");
        r.append(rel);
        proof {
            reveal_strlit("/");
        }
        r
    }
}

pub fn expand_home(p: &str, home: &Option<String>) -> (r: String)
    ensures
        r@ == expand_home_of(p@, match home {
            Some(h) => Some(h@),
            None => None,
        }),
{
    proof {
        reveal_strlit("~/");
    }
    let prefixed = str_starts_with(p, "~/");
    assert(seq!['~', '/'] =~= "~/"@);
    match home {
        Some(h) => {
            if prefixed {
                let mut r = h.clone();
                let tail = skip_chars(p, 1);
                r.append(tail.as_str());
                r
            } else {
                String::from_str(p)
            }
        },
        None => String::from_str(p),
    }
}

/// The pieces of a `sep`-separated list, in order, empty ones included.
pub fn split_list(s: &str, sep: char) -> (r: Vec<String>)
    ensures
        strings_view(r@) == split_on(s@, sep),
{
    let n = s.unicode_len();
    let mut pieces: Vec<String> = Vec::new();
    let mut cur = String::new();
    let mut i: usize = 0;
    while i < n
        invariant
            n == s@.len(),
            i <= n,
            strings_view(pieces@).push(cur@) == split_on(s@.subrange(0, i as int), sep),
        decreases n - i,
    {
        let ghost pre = s@.subrange(0, i as int);
        assert(s@.subrange(0, i as int + 1).drop_last() =~= pre);
        let c = s.get_char(i);
        if c == sep {
            proof {
                assert(s@.subrange(0, i as int + 1).last() == c);
                assert(strings_view(pieces@.push(cur)) =~= strings_view(pieces@).push(cur@));
            }
            pieces.push(cur);
            cur = String::new();
            proof {
                assert(strings_view(pieces@).push(cur@) =~= split_on(s@.subrange(0, i as int + 1), sep));
            }
        } else {
            let one = s.substring_char(i, i + 1);
            let ghost old_cur = cur@;
            cur.append(one);
            proof {
                assert(one@ =~= seq![c]);
                assert(cur@ =~= old_cur.push(c));
                assert(s@.subrange(0, i as int + 1).last() == c);
                assert(strings_view(pieces@).push(cur@) =~= split_on(s@.subrange(0, i as int + 1), sep));
            }
        }
        i = i + 1;
    }
    assert(s@.subrange(0, n as int) =~= s@);
    proof {
        assert(strings_view(pieces@.push(cur)) =~= strings_view(pieces@).push(cur@));
    }
    pieces.push(cur);
    pieces
}

} // verus!
