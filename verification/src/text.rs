//! Character classes and conversions between strings and character vectors.

use vstd::prelude::*;
use vstd::std_specs::iter::IteratorSpec;

verus! {

/// Unicode `White_Space`, the class that separates words.
pub open spec fn is_whitespace(c: char) -> bool {
    let n = c as u32;
    ||| 0x09 <= n <= 0x0D
    ||| n == 0x20
    ||| n == 0x85
    ||| n == 0xA0
    ||| n == 0x1680
    ||| 0x2000 <= n <= 0x200A
    ||| n == 0x2028
    ||| n == 0x2029
    ||| n == 0x202F
    ||| n == 0x205F
    ||| n == 0x3000
}

/// The characters a command token is made of: ASCII letters, digits and `_`.
pub open spec fn is_word_char(c: char) -> bool {
    let n = c as u32;
    ||| 0x30 <= n <= 0x39
    ||| 0x41 <= n <= 0x5A
    ||| 0x61 <= n <= 0x7A
    ||| n == 0x5F
}

/// Whether `c` is whitespace.
pub fn char_is_whitespace(c: char) -> (r: bool)
    ensures
        r == is_whitespace(c),
{
    let n: u32 = c as u32;
    (0x09 <= n && n <= 0x0D) || n == 0x20 || n == 0x85 || n == 0xA0 || n == 0x1680 || (0x2000 <= n
        && n <= 0x200A) || n == 0x2028 || n == 0x2029 || n == 0x202F || n == 0x205F || n == 0x3000
}

/// Whether `c` can stand in a command token.
pub fn char_is_word(c: char) -> (r: bool)
    ensures
        r == is_word_char(c),
{
    let n: u32 = c as u32;
    (0x30 <= n && n <= 0x39) || (0x41 <= n && n <= 0x5A) || (0x61 <= n && n <= 0x7A) || n == 0x5F
}

/// `String::push`, of the standard library: afterwards the string is what it
/// was, with `c` at its end.
pub assume_specification[ String::push ](s: &mut String, c: char)
    ensures
        final(s)@ == old(s)@.push(c),
;

/// The characters of `s`, in order.
pub fn chars_of(s: &str) -> (v: Vec<char>)
    ensures
        v@ == s@,
{
    broadcast use vstd::string::group_string_axioms;

    let mut v: Vec<char> = Vec::new();
    let mut it = s.chars();
    loop
        invariant
            it.obeys_prophetic_iter_laws(),
            it.decrease() is Some,
            v@ + it.remaining() == s@,
        ensures
            v@ == s@,
        decreases it.decrease()->0,
    {
        let ghost before = it;
        match it.next() {
            Some(c) => {
                assert(before.remaining() == seq![c] + it.remaining());
                assert(v@.push(c) + it.remaining() == v@ + before.remaining());
                v.push(c);
            },
            None => {
                assert(v@ + it.remaining() =~= v@);
                break ;
            },
        }
    }
    v
}

/// Appends `v[from..to]` to `out`.
pub(crate) fn push_range(out: &mut String, v: &Vec<char>, from: usize, to: usize)
    requires
        from <= to <= v.len(),
    ensures
        final(out)@ == old(out)@ + v@.subrange(from as int, to as int),
{
    let mut i: usize = from;
    assert(out@ + v@.subrange(from as int, from as int) =~= out@);
    while i < to
        invariant
            from <= i <= to <= v.len(),
            out@ == old(out)@ + v@.subrange(from as int, i as int),
        decreases to - i,
    {
        out.push(v[i]);
        i += 1;
        assert(out@ =~= old(out)@ + v@.subrange(from as int, i as int));
    }
}

/// The string made of `v[from..to]`.
pub(crate) fn string_of(v: &Vec<char>, from: usize, to: usize) -> (s: String)
    requires
        from <= to <= v.len(),
    ensures
        s@ == v@.subrange(from as int, to as int),
{
    let mut s = String::new();
    push_range(&mut s, v, from, to);
    assert(Seq::<char>::empty() + v@.subrange(from as int, to as int) =~= v@.subrange(
        from as int,
        to as int,
    ));
    s
}

/// A copy of `v[from..to]`.
pub(crate) fn copy_range(v: &Vec<char>, from: usize, to: usize) -> (out: Vec<char>)
    requires
        from <= to <= v.len(),
    ensures
        out@ == v@.subrange(from as int, to as int),
{
    let mut out: Vec<char> = Vec::new();
    let mut i: usize = from;
    while i < to
        invariant
            from <= i <= to <= v.len(),
            out@ == v@.subrange(from as int, i as int),
        decreases to - i,
    {
        out.push(v[i]);
        i += 1;
        assert(out@ =~= v@.subrange(from as int, i as int));
    }
    out
}

/// A class of characters that a scan can look for.
#[derive(Clone, Copy, Debug)]
pub enum CharClass {
    /// One given character.
    Exactly(char),
    /// Any whitespace character.
    Whitespace,
    /// Any character that is not whitespace.
    NotWhitespace,
    /// Any character that cannot stand in a command token.
    NotWord,
}

impl CharClass {
    pub open spec fn holds(self, c: char) -> bool {
        match self {
            CharClass::Exactly(x) => c == x,
            CharClass::Whitespace => is_whitespace(c),
            CharClass::NotWhitespace => !is_whitespace(c),
            CharClass::NotWord => !is_word_char(c),
        }
    }

    pub fn test(&self, c: char) -> (r: bool)
        ensures
            r == self.holds(c),
    {
        match self {
            CharClass::Exactly(x) => c == *x,
            CharClass::Whitespace => char_is_whitespace(c),
            CharClass::NotWhitespace => !char_is_whitespace(c),
            CharClass::NotWord => !char_is_word(c),
        }
    }
}

/// The index of the first character of `s` in class `k`, or `s.len()` when
/// there is none.
pub open spec fn first_match(s: Seq<char>, k: CharClass) -> int
    decreases s.len(),
{
    if s.len() == 0 || k.holds(s[0]) {
        0
    } else {
        1 + first_match(s.drop_first(), k)
    }
}

/// No character of `s` is in class `k`.
pub open spec fn free_of(s: Seq<char>, k: CharClass) -> bool {
    forall|i: int| 0 <= i < s.len() ==> !k.holds(#[trigger] s[i])
}

pub proof fn lemma_first_match(s: Seq<char>, k: CharClass)
    ensures
        0 <= first_match(s, k) <= s.len(),
        forall|i: int| 0 <= i < first_match(s, k) ==> !k.holds(#[trigger] s[i]),
        first_match(s, k) < s.len() ==> k.holds(s[first_match(s, k)]),
    decreases s.len(),
{
    if s.len() == 0 || k.holds(s[0]) {
    } else {
        let t = s.drop_first();
        lemma_first_match(t, k);
        assert forall|i: int| 0 <= i < first_match(s, k) implies !k.holds(#[trigger] s[i]) by {
            if i > 0 {
                assert(s[i] == t[i - 1]);
            }
        }
        if first_match(s, k) < s.len() {
            assert(s[first_match(s, k)] == t[first_match(t, k)]);
        }
    }
}

/// `first_match` is the only index with nothing of the class before it and
/// the class, or the end, at it.
pub proof fn lemma_first_match_at(s: Seq<char>, k: CharClass, n: int)
    requires
        0 <= n <= s.len(),
        forall|i: int| 0 <= i < n ==> !k.holds(#[trigger] s[i]),
        n < s.len() ==> k.holds(s[n]),
    ensures
        first_match(s, k) == n,
    decreases s.len(),
{
    if s.len() == 0 {
    } else if k.holds(s[0]) {
        if n > 0 {
            assert(!k.holds(s[0]));
        }
    } else {
        let t = s.drop_first();
        assert forall|i: int| 0 <= i < n - 1 implies !k.holds(#[trigger] t[i]) by {
            assert(t[i] == s[i + 1]);
        }
        if n < s.len() {
            assert(t[n - 1] == s[n]);
        }
        lemma_first_match_at(t, k, n - 1);
    }
}

/// The first index in `from..to` whose character is in class `k`, or `to`.
pub(crate) fn find(v: &Vec<char>, from: usize, to: usize, k: CharClass) -> (r: usize)
    requires
        from <= to <= v.len(),
    ensures
        from <= r <= to,
        r == from + first_match(v@.subrange(from as int, to as int), k),
{
    let mut i: usize = from;
    while i < to && !k.test(v[i])
        invariant
            from <= i <= to <= v.len(),
            forall|j: int| from <= j < i ==> !k.holds(#[trigger] v@[j]),
        decreases to - i,
    {
        i += 1;
    }
    proof {
        let s = v@.subrange(from as int, to as int);
        assert forall|j: int| 0 <= j < i - from implies !k.holds(#[trigger] s[j]) by {
            assert(s[j] == v@[from + j]);
        }
        if i < to {
            assert(s[i - from] == v@[i as int]);
        }
        lemma_first_match_at(s, k, i - from);
    }
    i
}

/// Whether two strings hold the same characters.
pub fn same_text(a: &str, b: &str) -> (r: bool)
    ensures
        r == (a@ == b@),
{
    let x = chars_of(a);
    let y = chars_of(b);
    if x.len() != y.len() {
        return false;
    }
    let mut i: usize = 0;
    while i < x.len()
        invariant
            x@ == a@,
            y@ == b@,
            x.len() == y.len(),
            i <= x.len(),
            forall|j: int| 0 <= j < i ==> x@[j] == y@[j],
        decreases x.len() - i,
    {
        if x[i] != y[i] {
            assert(a@[i as int] != b@[i as int]);
            return false;
        }
        i += 1;
    }
    assert(x@ =~= y@);
    true
}

} // verus!
