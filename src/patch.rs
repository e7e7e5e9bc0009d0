//! Putting queued replacements into the source text. Where queued ranges
//! overlap, the one that starts first wins, and of two that start at the
//! same offset the shorter one.
use vstd::prelude::*;
use crate::rewrite::{Replacement, rep_view, reps_view};

verus! {

/// A replacement seen as (start, end, text).
pub type Rep = (int, int, Seq<char>);

/// Whether two ranges overlap: each starts before the other ends. Ranges
/// that only touch do not; an empty range overlaps a range that holds its
/// offset strictly inside.
pub open spec fn intersects(a: Rep, b: Rep) -> bool {
    a.0 < b.1 && b.0 < a.1
}

/// `a` comes no later than `b`: it starts earlier, or at the same offset
/// and is no longer.
pub open spec fn key_le(a: Rep, b: Rep) -> bool {
    a.0 < b.0 || (a.0 == b.0 && a.1 - a.0 <= b.1 - b.0)
}

/// Ranges in increasing order, each ending no later than the next one starts.
pub open spec fn ordered(ks: Seq<Rep>) -> bool {
    &&& forall|j: int| 0 <= j < ks.len() ==> #[trigger] ks[j].0 <= ks[j].1
    &&& forall|j: int| 0 <= j < ks.len() - 1 ==> #[trigger] ks[j].1 <= ks[j + 1].0
}

/// `x` gave way to a kept replacement that comes no later and overlaps it.
pub open spec fn dropped_by(ks: Seq<Rep>, x: Rep) -> bool {
    exists|j: int| 0 <= j < ks.len() && #[trigger] intersects(ks[j], x) && key_le(ks[j], x)
}

/// `ks` is what is kept of `all`: ordered, taken from `all`, and every
/// replacement of `all` is kept or gave way to one that is.
pub open spec fn is_selection(all: Seq<Rep>, ks: Seq<Rep>) -> bool {
    &&& ordered(ks)
    &&& forall|j: int| 0 <= j < ks.len() ==> all.contains(#[trigger] ks[j])
    &&& forall|i: int| 0 <= i < all.len() ==> ks.contains(#[trigger] all[i]) || dropped_by(ks, all[i])
}

pub open spec fn end_of(ks: Seq<Rep>) -> int {
    if ks.len() == 0 {
        0
    } else {
        ks.last().1
    }
}

/// The output up to the end of the last kept range.
pub open spec fn assembled(src: Seq<char>, ks: Seq<Rep>) -> Seq<char>
    decreases ks.len(),
{
    if ks.len() == 0 {
        Seq::empty()
    } else {
        assembled(src, ks.drop_last()) + src.subrange(end_of(ks.drop_last()), ks.last().0) + ks.last().2
    }
}

/// `src` with each range of `ks` replaced by its text.
pub open spec fn patched(src: Seq<char>, ks: Seq<Rep>) -> Seq<char> {
    assembled(src, ks) + src.subrange(end_of(ks), src.len() as int)
}

pub open spec fn span_total(ks: Seq<Rep>) -> int
    decreases ks.len(),
{
    if ks.len() == 0 {
        0
    } else {
        span_total(ks.drop_last()) + (ks.last().1 - ks.last().0)
    }
}

pub open spec fn text_total(ks: Seq<Rep>) -> int
    decreases ks.len(),
{
    if ks.len() == 0 {
        0
    } else {
        text_total(ks.drop_last()) + ks.last().2.len()
    }
}

pub open spec fn within(ks: Seq<Rep>, n: int) -> bool {
    forall|j: int| 0 <= j < ks.len() ==> 0 <= #[trigger] ks[j].0 && ks[j].1 <= n
}

pub open spec fn well_formed(reps: Seq<Rep>, n: int) -> bool {
    forall|j: int| 0 <= j < reps.len() ==> 0 <= #[trigger] reps[j].0 <= reps[j].1 <= n
}

proof fn lemma_ordered_prefix(ks: Seq<Rep>, n: int)
    requires
        ks.len() > 0,
        ordered(ks),
        within(ks, n),
    ensures
        ordered(ks.drop_last()),
        within(ks.drop_last(), n),
{
    let p = ks.drop_last();
    assert forall|j: int| 0 <= j < p.len() implies #[trigger] p[j] == ks[j] by {}
    assert forall|j: int| 0 <= j < p.len() - 1 implies #[trigger] p[j].1 <= p[j + 1].0 by {
        assert(p[j] == ks[j] && p[j + 1] == ks[j + 1]);
    }
}

/// No two kept ranges share an offset, and the patched text is as long as
/// the source, less the kept ranges, plus their texts.
pub proof fn lemma_patch_length(src: Seq<char>, ks: Seq<Rep>)
    requires
        ordered(ks),
        within(ks, src.len() as int),
    ensures
        forall|a: int, b: int| 0 <= a < b < ks.len() ==> !intersects(#[trigger] ks[a], #[trigger] ks[b]),
        patched(src, ks).len() == src.len() - span_total(ks) + text_total(ks),
{
    lemma_ordered_disjoint(ks);
    lemma_assembled_len(src, ks);
}

proof fn lemma_ordered_disjoint(ks: Seq<Rep>)
    requires
        ordered(ks),
    ensures
        forall|a: int, b: int| 0 <= a < b < ks.len() ==> !intersects(#[trigger] ks[a], #[trigger] ks[b]),
{
    assert forall|a: int, b: int| 0 <= a < b < ks.len() implies ks[a].1 <= ks[b].0 by {
        lemma_ordered_step(ks, a, b);
    }
}

proof fn lemma_ordered_step(ks: Seq<Rep>, a: int, b: int)
    requires
        ordered(ks),
        0 <= a < b < ks.len(),
    ensures
        ks[a].1 <= ks[b].0,
    decreases b - a,
{
    assert(ks[b - 1].1 <= ks[b].0);
    if a < b - 1 {
        lemma_ordered_step(ks, a, b - 1);
        assert(ks[b - 1].0 <= ks[b - 1].1);
    }
}

proof fn lemma_assembled_len(src: Seq<char>, ks: Seq<Rep>)
    requires
        ordered(ks),
        within(ks, src.len() as int),
    ensures
        assembled(src, ks).len() == end_of(ks) - span_total(ks) + text_total(ks),
        0 <= end_of(ks) <= src.len(),
    decreases ks.len(),
{
    if ks.len() > 0 {
        let p = ks.drop_last();
        lemma_ordered_prefix(ks, src.len() as int);
        lemma_assembled_len(src, p);
        assert(ks[ks.len() - 1].0 <= ks[ks.len() - 1].1);
        if p.len() > 0 {
            assert(ks[ks.len() - 2].1 <= ks[ks.len() - 1].0);
        }
    }
}

/// What holds while the replacements are picked: `rv` still waits, `kv`
/// is kept.
pub open spec fn select_inv(all: Seq<Rep>, rv: Seq<Rep>, kv: Seq<Rep>) -> bool {
    &&& forall|j: int| 0 <= j < rv.len() ==> #[trigger] rv[j].0 <= rv[j].1
    &&& ordered(kv)
    &&& forall|j: int| 0 <= j < kv.len() ==> all.contains(#[trigger] kv[j])
    &&& forall|j: int| 0 <= j < rv.len() ==> all.contains(#[trigger] rv[j])
    &&& kv.len() > 0 ==> forall|j: int| 0 <= j < rv.len() ==> key_le(kv.last(), #[trigger] rv[j])
    &&& forall|i: int| 0 <= i < all.len() ==> rv.contains(#[trigger] all[i]) || kv.contains(all[i]) || dropped_by(kv, all[i])
}

proof fn lemma_remove_index(rv: Seq<Rep>, best: int, q: int)
    requires
        0 <= best < rv.len(),
        0 <= q < rv.len() - 1,
    ensures
        rv.remove(best)[q] == if q < best { rv[q] } else { rv[q + 1] },
{
}

proof fn lemma_remove_contains(rv: Seq<Rep>, best: int, x: Rep)
    requires
        0 <= best < rv.len(),
        rv.contains(x),
        x != rv[best],
    ensures
        rv.remove(best).contains(x),
{
    let w = choose|w: int| 0 <= w < rv.len() && rv[w] == x;
    if w < best {
        assert(rv.remove(best)[w] == x);
    } else {
        assert(rv.remove(best)[w - 1] == x);
    }
}

proof fn lemma_select_step(all: Seq<Rep>, rv: Seq<Rep>, kv: Seq<Rep>, best: int, keep: bool)
    requires
        select_inv(all, rv, kv),
        0 <= best < rv.len(),
        forall|k: int| 0 <= k < rv.len() ==> key_le(rv[best], #[trigger] rv[k]),
        keep == (kv.len() == 0 || !intersects(kv.last(), rv[best])),
    ensures
        select_inv(all, rv.remove(best), if keep { kv.push(rv[best]) } else { kv }),
{
    let m = rv[best];
    let rv2 = rv.remove(best);
    let kv2 = if keep { kv.push(m) } else { kv };
    assert forall|q: int| 0 <= q < rv2.len() implies #[trigger] rv2[q] == if q < best { rv[q] } else { rv[q + 1] } by {
        lemma_remove_index(rv, best, q);
    }
    assert forall|j: int| 0 <= j < kv.len() implies #[trigger] kv2[j] == kv[j] by {}
    if keep {
        if kv.len() > 0 {
            assert(key_le(kv.last(), m));
            assert(kv.last().1 <= m.0);
        }
        assert forall|q: int| 0 <= q < kv2.len() - 1 implies #[trigger] kv2[q].1 <= kv2[q + 1].0 by {
            if q < kv.len() - 1 {
                assert(kv2[q] == kv[q] && kv2[q + 1] == kv[q + 1]);
            }
        }
        assert forall|q: int| 0 <= q < kv2.len() implies #[trigger] kv2[q].0 <= kv2[q].1 by {
            if q < kv.len() {
                assert(kv2[q] == kv[q]);
            }
        }
        assert forall|q: int| 0 <= q < kv2.len() implies all.contains(#[trigger] kv2[q]) by {
            if q < kv.len() {
                assert(kv2[q] == kv[q]);
            }
        }
        assert forall|q: int| 0 <= q < rv2.len() implies key_le(kv2.last(), #[trigger] rv2[q]) by {
            if q < best {
                assert(rv2[q] == rv[q]);
            } else {
                assert(rv2[q] == rv[q + 1]);
            }
        }
    } else {
        assert forall|q: int| 0 <= q < rv2.len() implies key_le(kv2.last(), #[trigger] rv2[q]) by {
            if q < best {
                assert(rv2[q] == rv[q]);
            } else {
                assert(rv2[q] == rv[q + 1]);
            }
        }
    }
    assert forall|q: int| 0 <= q < rv2.len() implies all.contains(#[trigger] rv2[q]) && rv2[q].0 <= rv2[q].1 by {
        if q < best {
            assert(rv2[q] == rv[q]);
        } else {
            assert(rv2[q] == rv[q + 1]);
        }
    }
    assert forall|i: int| 0 <= i < all.len() implies rv2.contains(#[trigger] all[i]) || kv2.contains(all[i]) || dropped_by(kv2, all[i]) by {
        let x = all[i];
        if rv.contains(x) {
            if x == m {
                if keep {
                    assert(kv2[kv2.len() - 1] == x);
                } else {
                    assert(intersects(kv[kv.len() - 1], x));
                    assert(key_le(kv[kv.len() - 1], x));
                }
            } else {
                lemma_remove_contains(rv, best, x);
            }
        } else if kv.contains(x) {
            let w = choose|w: int| 0 <= w < kv.len() && kv[w] == x;
            assert(kv2[w] == x);
        } else {
            let w = choose|w: int| 0 <= w < kv.len() && #[trigger] intersects(kv[w], x) && key_le(kv[w], x);
            assert(kv2[w] == kv[w]);
            assert(intersects(kv2[w], x));
        }
    }
}

/// What is kept of `reps`: see `is_selection`.
pub fn select_replacements(reps: Vec<Replacement>) -> (r: Vec<Replacement>)
    requires
        forall|j: int| 0 <= j < reps@.len() ==> (#[trigger] reps@[j]).range.start <= reps@[j].range.end,
    ensures
        is_selection(reps_view(reps@), reps_view(r@)),
{
    let ghost all = reps_view(reps@);
    let mut rest = reps;
    let mut kept: Vec<Replacement> = Vec::new();
    proof {
        assert(reps_view(kept@) =~= Seq::<Rep>::empty());
        assert forall|i: int| 0 <= i < all.len() implies reps_view(rest@).contains(#[trigger] all[i]) by {
            assert(reps_view(rest@)[i] == all[i]);
        }
        assert forall|j: int| 0 <= j < all.len() implies all.contains(#[trigger] all[j]) && all[j].0 <= all[j].1 by {
            assert(all[j] == rep_view(rest@[j]));
        }
    }
    while rest.len() > 0
        invariant
            select_inv(all, reps_view(rest@), reps_view(kept@)),
        decreases rest@.len(),
    {
        let ghost rv = reps_view(rest@);
        let ghost kv = reps_view(kept@);
        let mut best: usize = 0;
        let mut j: usize = 1;
        while j < rest.len()
            invariant
                rest@.len() > 0,
                best < rest@.len(),
                1 <= j <= rest@.len(),
                rv == reps_view(rest@),
                forall|k: int| 0 <= k < j ==> key_le(rv[best as int], #[trigger] rv[k]),
            decreases rest.len() - j,
        {
            let a = rest[best].range;
            let b = rest[j].range;
            assert(rv[j as int] == rep_view(rest@[j as int]));
            assert(rv[best as int] == rep_view(rest@[best as int]));
            if b.start < a.start || (b.start == a.start && b.end < a.end) {
                best = j;
            }
            j = j + 1;
        }
        let keep = if kept.len() == 0 {
            true
        } else {
            let last = kept[kept.len() - 1].range;
            let m = rest[best].range;
            assert(kv.last() == rep_view(kept@[kept@.len() - 1]));
            assert(rv[best as int] == rep_view(rest@[best as int]));
            !(last.start < m.end && m.start < last.end)
        };
        proof {
            lemma_select_step(all, rv, kv, best as int, keep);
        }
        let m = rest.remove(best);
        assert(reps_view(rest@) =~= rv.remove(best as int));
        if keep {
            kept.push(m);
            assert(reps_view(kept@) =~= kv.push(rv[best as int]));
        }
    }
    proof {
        let kv = reps_view(kept@);
        assert forall|i: int| 0 <= i < all.len() implies kv.contains(#[trigger] all[i]) || dropped_by(kv, all[i]) by {
            assert(!reps_view(rest@).contains(all[i]));
        }
    }
    kept
}

/// Replacing each kept range by the text it already holds gives the
/// source back.
pub proof fn lemma_patch_identity(src: Seq<char>, ks: Seq<Rep>)
    requires
        ordered(ks),
        within(ks, src.len() as int),
        forall|j: int| 0 <= j < ks.len() ==> (#[trigger] ks[j]).2 == src.subrange(ks[j].0, ks[j].1),
    ensures
        patched(src, ks) == src,
{
    lemma_assembled_identity(src, ks);
    assert(src.subrange(0, end_of(ks)) + src.subrange(end_of(ks), src.len() as int) =~= src);
}

proof fn lemma_assembled_identity(src: Seq<char>, ks: Seq<Rep>)
    requires
        ordered(ks),
        within(ks, src.len() as int),
        forall|j: int| 0 <= j < ks.len() ==> (#[trigger] ks[j]).2 == src.subrange(ks[j].0, ks[j].1),
    ensures
        assembled(src, ks) == src.subrange(0, end_of(ks)),
        0 <= end_of(ks) <= src.len(),
    decreases ks.len(),
{
    if ks.len() > 0 {
        let p = ks.drop_last();
        lemma_ordered_prefix(ks, src.len() as int);
        assert forall|j: int| 0 <= j < p.len() implies (#[trigger] p[j]).2 == src.subrange(p[j].0, p[j].1) by {
            assert(p[j] == ks[j]);
        }
        lemma_assembled_identity(src, p);
        let l = ks.last();
        assert(ks[ks.len() - 1] == l);
        assert(l.0 <= l.1);
        if p.len() > 0 {
            assert(ks[ks.len() - 2].1 <= ks[ks.len() - 1].0);
        }
        assert(src.subrange(0, end_of(p)) + src.subrange(end_of(p), l.0) + src.subrange(l.0, l.1) =~= src.subrange(0, l.1));
    }
}

/// What `apply_replacements` keeps never overlapped in the source, and the
/// output's length is the source's, less the kept ranges, plus their texts.
pub proof fn lemma_applied_non_overlap(src: Seq<char>, all: Seq<Rep>, ks: Seq<Rep>)
    requires
        well_formed(all, src.len() as int),
        is_selection(all, ks),
    ensures
        forall|a: int, b: int| 0 <= a < b < ks.len() ==> !intersects(#[trigger] ks[a], #[trigger] ks[b]),
        patched(src, ks).len() == src.len() - span_total(ks) + text_total(ks),
{
    assert forall|j: int| 0 <= j < ks.len() implies 0 <= #[trigger] ks[j].0 && ks[j].1 <= src.len() by {
        assert(all.contains(ks[j]));
        let w = choose|w: int| 0 <= w < all.len() && all[w] == ks[j];
        assert(0 <= all[w].0 <= all[w].1 <= src.len());
    }
    lemma_patch_length(src, ks);
}

/// `source` with each range of `kept` replaced by its text.
pub fn splice(source: &str, kept: &Vec<Replacement>) -> (r: String)
    requires
        ordered(reps_view(kept@)),
        within(reps_view(kept@), source@.len() as int),
    ensures
        r@ == patched(source@, reps_view(kept@)),
{
    let ghost kv = reps_view(kept@);
    let n = source.unicode_len();
    let mut out = String::new();
    let mut last: usize = 0;
    let mut i: usize = 0;
    assert(kv.take(0) =~= Seq::<Rep>::empty());
    while i < kept.len()
        invariant
            kv == reps_view(kept@),
            n == source@.len(),
            ordered(kv),
            within(kv, n as int),
            i <= kept@.len(),
            out@ == assembled(source@, kv.take(i as int)),
            last as int == end_of(kv.take(i as int)),
            last <= n,
            i < kept@.len() ==> last <= kv[i as int].0,
        decreases kept.len() - i,
    {
        let rep = &kept[i];
        assert(kv[i as int] == rep_view(*rep));
        assert(kv[i as int].0 <= kv[i as int].1);
        let piece = source.substring_char(last, rep.range.start);
        out.append(piece);
        out.append(rep.text.as_str());
        proof {
            assert(kv.take(i as int + 1).drop_last() =~= kv.take(i as int));
            assert(kv.take(i as int + 1).last() == kv[i as int]);
            if i + 1 < kept@.len() {
                assert(kv[i as int].1 <= kv[i as int + 1].0);
            }
        }
        last = rep.range.end;
        i = i + 1;
    }
    assert(kv.take(kept@.len() as int) =~= kv);
    let tail = source.substring_char(last, n);
    out.append(tail);
    out
}

/// `source` with the replacements that win put in: see `is_selection`.
pub fn apply_replacements(source: &str, reps: Vec<Replacement>) -> (r: String)
    requires
        well_formed(reps_view(reps@), source@.len() as int),
    ensures
        exists|ks: Seq<Rep>| is_selection(reps_view(reps@), ks) && r@ == patched(source@, ks),
{
    let ghost all = reps_view(reps@);
    proof {
        assert forall|j: int| 0 <= j < reps@.len() implies (#[trigger] reps@[j]).range.start <= reps@[j].range.end by {
            assert(all[j] == rep_view(reps@[j]));
            assert(0 <= all[j].0 <= all[j].1);
        }
    }
    let kept = select_replacements(reps);
    let ghost kv = reps_view(kept@);
    proof {
        assert forall|j: int| 0 <= j < kv.len() implies 0 <= #[trigger] kv[j].0 && kv[j].1 <= source@.len() by {
            assert(all.contains(kv[j]));
        }
    }
    splice(source, &kept)
}

} // verus!
