//! Finding a separator in text, and splitting text on it.

use crate::text::push_range;
use crate::words::{join, lemma_join_push};
use vstd::prelude::*;

verus! {

/// Whether `pat` stands at the front of `s`.
pub open spec fn starts_with(s: Seq<char>, pat: Seq<char>) -> bool {
    pat.len() <= s.len() && s.take(pat.len() as int) == pat
}

/// Whether `pat` stands at the end of `s`.
pub open spec fn ends_with(s: Seq<char>, pat: Seq<char>) -> bool {
    pat.len() <= s.len() && s.skip(s.len() - pat.len()) == pat
}

/// Whether `pat` stands anywhere in `s`.
pub open spec fn occurs_in(pat: Seq<char>, s: Seq<char>) -> bool {
    exists|i: int| 0 <= i <= s.len() && starts_with(#[trigger] s.skip(i), pat)
}

/// The index at which `pat` first stands in `s`, or `s.len()` when it stands
/// nowhere.
pub open spec fn find_sub(s: Seq<char>, pat: Seq<char>) -> int
    decreases s.len(),
{
    if starts_with(s, pat) || s.len() == 0 {
        0
    } else {
        1 + find_sub(s.drop_first(), pat)
    }
}

/// The pieces of `s` between the occurrences of `sep`, taken from the left.
/// There is always at least one piece; the last one is what follows the last
/// separator.
pub open spec fn split(s: Seq<char>, sep: Seq<char>) -> Seq<Seq<char>>
    decreases s.len(),
{
    let i = find_sub(s, sep);
    if sep.len() == 0 || i >= s.len() {
        seq![s]
    } else {
        proof {
            lemma_find_sub(s, sep);
        }
        seq![s.take(i)] + split(s.skip(i + sep.len()), sep)
    }
}

/// `s` with every occurrence of `pat`, taken from the left, replaced by `with`.
pub open spec fn replace(s: Seq<char>, pat: Seq<char>, with: Seq<char>) -> Seq<char> {
    join(split(s, pat), with)
}

pub proof fn lemma_find_sub(s: Seq<char>, pat: Seq<char>)
    requires
        pat.len() > 0,
    ensures
        0 <= find_sub(s, pat) <= s.len(),
        forall|j: int| 0 <= j < find_sub(s, pat) ==> !starts_with(#[trigger] s.skip(j), pat),
        find_sub(s, pat) < s.len() ==> starts_with(s.skip(find_sub(s, pat)), pat),
        find_sub(s, pat) < s.len() ==> find_sub(s, pat) + pat.len() <= s.len(),
    decreases s.len(),
{
    assert(s.skip(0) =~= s);
    if starts_with(s, pat) || s.len() == 0 {
    } else {
        let t = s.drop_first();
        lemma_find_sub(t, pat);
        assert forall|j: int| 0 <= j < find_sub(s, pat) implies !starts_with(
            #[trigger] s.skip(j),
            pat,
        ) by {
            if j > 0 {
                assert(s.skip(j) =~= t.skip(j - 1));
            }
        }
        if find_sub(s, pat) < s.len() {
            assert(s.skip(find_sub(s, pat)) =~= t.skip(find_sub(t, pat)));
        }
    }
}

/// `find_sub` is the only index with no occurrence before it and an
/// occurrence, or the end, at it.
pub proof fn lemma_find_sub_at(s: Seq<char>, pat: Seq<char>, n: int)
    requires
        pat.len() > 0,
        0 <= n <= s.len(),
        forall|j: int| 0 <= j < n ==> !starts_with(#[trigger] s.skip(j), pat),
        n < s.len() ==> starts_with(s.skip(n), pat),
    ensures
        find_sub(s, pat) == n,
    decreases s.len(),
{
    assert(s.skip(0) =~= s);
    if s.len() == 0 {
    } else if starts_with(s, pat) {
        if n > 0 {
            assert(!starts_with(s.skip(0), pat));
        }
    } else {
        let t = s.drop_first();
        assert forall|j: int| 0 <= j < n - 1 implies !starts_with(#[trigger] t.skip(j), pat) by {
            assert(t.skip(j) =~= s.skip(j + 1));
        }
        if n < s.len() {
            assert(t.skip(n - 1) =~= s.skip(n));
        }
        lemma_find_sub_at(t, pat, n - 1);
    }
}

/// Whether `pat` stands in `v` at index `at`.
fn matches_at(v: &Vec<char>, at: usize, pat: &Vec<char>) -> (r: bool)
    requires
        at <= v.len(),
    ensures
        r == starts_with(v@.skip(at as int), pat@),
{
    if pat.len() > v.len() - at {
        return false;
    }
    let mut k: usize = 0;
    while k < pat.len()
        invariant
            at <= v.len(),
            pat.len() <= v.len() - at,
            k <= pat.len(),
            forall|j: int| 0 <= j < k ==> v@[at + j] == pat@[j],
        decreases pat.len() - k,
    {
        if v[at + k] != pat[k] {
            assert(v@.skip(at as int).take(pat@.len() as int)[k as int] != pat@[k as int]);
            return false;
        }
        k += 1;
    }
    assert(v@.skip(at as int).take(pat@.len() as int) =~= pat@);
    true
}

/// The first index at or after `from` at which `pat` stands in `v`, or
/// `v.len()`.
pub(crate) fn find_sub_in(v: &Vec<char>, from: usize, pat: &Vec<char>) -> (r: usize)
    requires
        from <= v.len(),
        pat.len() > 0,
    ensures
        from <= r <= v.len(),
        r == from + find_sub(v@.skip(from as int), pat@),
{
    let mut i: usize = from;
    while i < v.len() && !matches_at(v, i, pat)
        invariant
            from <= i <= v.len(),
            forall|j: int| from <= j < i ==> !starts_with(#[trigger] v@.skip(j), pat@),
        decreases v.len() - i,
    {
        i += 1;
    }
    proof {
        let s = v@.skip(from as int);
        assert forall|j: int| 0 <= j < i - from implies !starts_with(#[trigger] s.skip(j), pat@) by {
            assert(s.skip(j) =~= v@.skip(from + j));
        }
        assert(s.skip(i - from) =~= v@.skip(i as int));
        lemma_find_sub_at(s, pat@, i - from);
    }
    i
}

/// The pieces that a list of bounds cuts out of `s`.
pub open spec fn pieces(s: Seq<char>, bounds: Seq<(usize, usize)>) -> Seq<Seq<char>> {
    Seq::new(bounds.len(), |k: int| s.subrange(bounds[k].0 as int, bounds[k].1 as int))
}

/// The bounds of the pieces of `split(v, sep)`.
pub(crate) fn split_bounds(v: &Vec<char>, sep: &Vec<char>) -> (out: Vec<(usize, usize)>)
    requires
        sep.len() > 0,
    ensures
        out.len() > 0,
        forall|k: int| 0 <= k < out.len() ==> (#[trigger] out[k]).0 <= out[k].1 <= v.len(),
        pieces(v@, out@) == split(v@, sep@),
{
    let mut out: Vec<(usize, usize)> = Vec::new();
    let mut i: usize = 0;
    assert(v@.skip(0) =~= v@);
    assert(pieces(v@, out@) + split(v@, sep@) =~= split(v@, sep@));
    loop
        invariant_except_break
            split(v@, sep@) == pieces(v@, out@) + split(v@.skip(i as int), sep@),
        invariant
            i <= v.len(),
            sep.len() > 0,
            forall|k: int| 0 <= k < out.len() ==> (#[trigger] out[k]).0 <= out[k].1 <= v.len(),
        ensures
            out.len() > 0,
            forall|k: int| 0 <= k < out.len() ==> (#[trigger] out[k]).0 <= out[k].1 <= v.len(),
            pieces(v@, out@) == split(v@, sep@),
        decreases v.len() - i,
    {
        let ghost rest = v@.skip(i as int);
        let ghost before = pieces(v@, out@);
        proof {
            lemma_find_sub(rest, sep@);
        }
        let j = find_sub_in(v, i, sep);
        if j >= v.len() {
            out.push((i, v.len()));
            proof {
                assert(v@.subrange(i as int, v@.len() as int) =~= rest);
                assert(pieces(v@, out@) =~= before.push(rest));
                assert(before.push(rest) =~= before + seq![rest]);
            }
            break ;
        }
        out.push((i, j));
        proof {
            assert(rest.take(j - i) =~= v@.subrange(i as int, j as int));
            assert(rest.skip(j - i + sep@.len()) =~= v@.skip(j + sep@.len()));
            assert(pieces(v@, out@) =~= before.push(rest.take(j - i)));
            assert(before + (seq![rest.take(j - i)] + split(v@.skip(j + sep@.len()), sep@))
                =~= before.push(rest.take(j - i)) + split(v@.skip(j + sep@.len()), sep@));
        }
        i = j + sep.len();
    }
    out
}

/// `s` with every occurrence of `pat` replaced by `with`.
pub fn replace_all(s: &str, pat: &str, with: &str) -> (out: String)
    ensures
        out@ == replace(s@, pat@, with@),
{
    let v = crate::text::chars_of(s);
    let p = crate::text::chars_of(pat);
    if p.len() == 0 {
        assert(split(s@, pat@) == seq![s@]);
        return crate::text::string_of(&v, 0, v.len());
    }
    let bounds = split_bounds(&v, &p);
    let mut out = String::new();
    let mut k: usize = 0;
    assert(pieces(v@, bounds@).take(0) =~= Seq::<Seq<char>>::empty());
    while k < bounds.len()
        invariant
            k <= bounds.len(),
            forall|j: int|
                0 <= j < bounds.len() ==> (#[trigger] bounds[j]).0 <= bounds[j].1 <= v.len(),
            out@ == join(pieces(v@, bounds@).take(k as int), with@),
        decreases bounds.len() - k,
    {
        let ghost done = pieces(v@, bounds@).take(k as int);
        let ghost piece = pieces(v@, bounds@)[k as int];
        if k > 0 {
            out.append(with);
        }
        let (a, b) = bounds[k];
        push_range(&mut out, &v, a, b);
        proof {
            lemma_join_push(done, piece, with@);
            assert(pieces(v@, bounds@).take(k + 1) =~= done.push(piece));
        }
        k += 1;
    }
    assert(pieces(v@, bounds@).take(bounds.len() as int) =~= pieces(v@, bounds@));
    out
}

} // verus!
