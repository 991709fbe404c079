//! Splitting text into whitespace-separated words, joining, and trimming.

use crate::text::{find, first_match, free_of, is_whitespace, lemma_first_match, string_of, CharClass};
use vstd::prelude::*;

verus! {

/// The maximal runs of non-whitespace characters of `s`, in order.
pub open spec fn words(s: Seq<char>) -> Seq<Seq<char>>
    decreases s.len(),
{
    let start = first_match(s, CharClass::NotWhitespace);
    let end = start + first_match(s.skip(start), CharClass::Whitespace);
    if start >= s.len() {
        seq![]
    } else {
        proof {
            lemma_first_match(s, CharClass::NotWhitespace);
            lemma_first_match(s.skip(start), CharClass::Whitespace);
        }
        seq![s.subrange(start, end)] + words(s.skip(end))
    }
}

/// The parts in order, with `sep` between each two neighbours.
pub open spec fn join(parts: Seq<Seq<char>>, sep: Seq<char>) -> Seq<char>
    decreases parts.len(),
{
    if parts.len() == 0 {
        Seq::empty()
    } else if parts.len() == 1 {
        parts[0]
    } else {
        parts[0] + sep + join(parts.drop_first(), sep)
    }
}

/// `s` without its leading whitespace.
pub open spec fn trim_start(s: Seq<char>) -> Seq<char> {
    s.skip(first_match(s, CharClass::NotWhitespace))
}

/// `s` without its trailing whitespace.
pub open spec fn trim_end(s: Seq<char>) -> Seq<char>
    decreases s.len(),
{
    if s.len() > 0 && is_whitespace(s.last()) {
        trim_end(s.drop_last())
    } else {
        s
    }
}

/// `s` without the whitespace at either end.
pub open spec fn trim(s: Seq<char>) -> Seq<char> {
    trim_end(trim_start(s))
}

/// A single word: not empty, and without whitespace.
pub open spec fn is_word(w: Seq<char>) -> bool {
    w.len() > 0 && free_of(w, CharClass::Whitespace)
}

/// How `words` takes its first word off the front of `s`.
pub proof fn lemma_words_step(s: Seq<char>)
    ensures
        ({
            let start = first_match(s, CharClass::NotWhitespace);
            let end = start + first_match(s.skip(start), CharClass::Whitespace);
            &&& 0 <= start <= s.len()
            &&& start >= s.len() ==> words(s) == Seq::<Seq<char>>::empty()
            &&& start < s.len() ==> {
                &&& start < end <= s.len()
                &&& is_word(s.subrange(start, end))
                &&& words(s) == seq![s.subrange(start, end)] + words(s.skip(end))
            }
        }),
{
    let start = first_match(s, CharClass::NotWhitespace);
    lemma_first_match(s, CharClass::NotWhitespace);
    if start < s.len() {
        let rest = s.skip(start);
        let n = first_match(rest, CharClass::Whitespace);
        lemma_first_match(rest, CharClass::Whitespace);
        assert(rest[0] == s[start]);
        let w = s.subrange(start, start + n);
        assert forall|i: int| 0 <= i < w.len() implies !CharClass::Whitespace.holds(
            #[trigger] w[i],
        ) by {
            assert(w[i] == rest[i]);
        }
    }
}

/// Every word of `s` is a word.
pub proof fn lemma_words_are_words(s: Seq<char>)
    ensures
        forall|i: int| 0 <= i < words(s).len() ==> is_word(#[trigger] words(s)[i]),
    decreases s.len(),
{
    lemma_words_step(s);
    let start = first_match(s, CharClass::NotWhitespace);
    if start < s.len() {
        let end = start + first_match(s.skip(start), CharClass::Whitespace);
        lemma_words_are_words(s.skip(end));
        let tail = words(s.skip(end));
        assert forall|i: int| 0 <= i < words(s).len() implies is_word(#[trigger] words(s)[i]) by {
            if i > 0 {
                assert(words(s)[i] == tail[i - 1]);
            }
        }
    }
}

/// Joining one more part appends the separator and the part.
pub proof fn lemma_join_push(parts: Seq<Seq<char>>, last: Seq<char>, sep: Seq<char>)
    ensures
        join(parts.push(last), sep) == if parts.len() == 0 {
            last
        } else {
            join(parts, sep) + sep + last
        },
    decreases parts.len(),
{
    let all = parts.push(last);
    if parts.len() == 0 {
    } else {
        assert(all.drop_first() =~= parts.drop_first().push(last));
        lemma_join_push(parts.drop_first(), last, sep);
        if parts.len() == 1 {
        } else {
            assert(parts[0] + sep + (join(parts.drop_first(), sep) + sep + last) =~= (parts[0] + sep
                + join(parts.drop_first(), sep)) + sep + last);
        }
    }
}

/// The words of `v[from..to]`.
pub(crate) fn split_words_in(v: &Vec<char>, from: usize, to: usize) -> (out: Vec<String>)
    requires
        from <= to <= v.len(),
    ensures
        out.deep_view() == words(v@.subrange(from as int, to as int)),
{
    let mut out: Vec<String> = Vec::new();
    let mut i: usize = from;
    assert(out.deep_view() + words(v@.subrange(from as int, to as int)) =~= words(
        v@.subrange(from as int, to as int),
    ));
    loop
        invariant
            from <= i <= to <= v.len(),
            words(v@.subrange(from as int, to as int)) == out.deep_view() + words(
                v@.subrange(i as int, to as int),
            ),
        ensures
            out.deep_view() == words(v@.subrange(from as int, to as int)),
        decreases to - i,
    {
        let ghost x = v@.subrange(i as int, to as int);
        proof {
            lemma_words_step(x);
        }
        let start = find(v, i, to, CharClass::NotWhitespace);
        if start >= to {
            assert(out.deep_view() + Seq::<Seq<char>>::empty() =~= out.deep_view());
            break ;
        }
        proof {
            assert(x.skip(start - i) =~= v@.subrange(start as int, to as int));
        }
        let end = find(v, start, to, CharClass::Whitespace);
        let w = string_of(v, start, end);
        let ghost before = out.deep_view();
        out.push(w);
        proof {
            assert(x.subrange(start - i, end - i) =~= v@.subrange(start as int, end as int));
            assert(x.skip(end - i) =~= v@.subrange(end as int, to as int));
            assert(out.deep_view() =~= before.push(w@));
            assert(before + (seq![w@] + words(v@.subrange(end as int, to as int))) =~= before.push(
                w@,
            ) + words(v@.subrange(end as int, to as int)));
        }
        i = end;
    }
    out
}

/// The words of `s`.
pub fn split_words(s: &str) -> (out: Vec<String>)
    ensures
        out.deep_view() == words(s@),
{
    let v = crate::text::chars_of(s);
    assert(v@.subrange(0, v@.len() as int) =~= v@);
    split_words_in(&v, 0, v.len())
}

/// `parts[from..]` with `sep` between each two neighbours.
pub(crate) fn join_from(parts: &Vec<String>, from: usize, sep: &str) -> (out: String)
    requires
        from <= parts.len(),
    ensures
        out@ == join(parts.deep_view().skip(from as int), sep@),
{
    let mut out = String::new();
    let mut i: usize = from;
    assert(parts.deep_view().subrange(from as int, from as int) =~= Seq::<Seq<char>>::empty());
    while i < parts.len()
        invariant
            from <= i <= parts.len(),
            out@ == join(parts.deep_view().subrange(from as int, i as int), sep@),
        decreases parts.len() - i,
    {
        let ghost done = parts.deep_view().subrange(from as int, i as int);
        if i > from {
            out.append(sep);
        }
        out.append(parts[i].as_str());
        proof {
            lemma_join_push(done, parts[i as int]@, sep@);
            assert(parts.deep_view().subrange(from as int, i + 1) =~= done.push(parts[i as int]@));
        }
        i += 1;
    }
    assert(parts.deep_view().subrange(from as int, parts.len() as int) =~= parts.deep_view().skip(
        from as int,
    ));
    out
}

/// The bounds of `v[from..to]` without the whitespace at either end.
pub(crate) fn trim_in(v: &Vec<char>, from: usize, to: usize) -> (r: (usize, usize))
    requires
        from <= to <= v.len(),
    ensures
        from <= r.0 <= r.1 <= to,
        v@.subrange(r.0 as int, r.1 as int) == trim(v@.subrange(from as int, to as int)),
{
    let a = find(v, from, to, CharClass::NotWhitespace);
    let mut b: usize = to;
    assert(v@.subrange(from as int, to as int).skip(a - from) =~= v@.subrange(a as int, to as int));
    while b > a && crate::text::char_is_whitespace(v[b - 1])
        invariant
            a <= b <= to <= v.len(),
            trim_end(v@.subrange(a as int, to as int)) == trim_end(v@.subrange(a as int, b as int)),
        decreases b - a,
    {
        assert(v@.subrange(a as int, b as int).last() == v@[b - 1]);
        assert(v@.subrange(a as int, b as int).drop_last() =~= v@.subrange(a as int, b - 1));
        b -= 1;
    }
    proof {
        if b > a {
            assert(v@.subrange(a as int, b as int).last() == v@[b - 1]);
        }
    }
    (a, b)
}

} // verus!
