//! What holds of the factoid store: a definition can be read back, and a
//! stored store can be loaded again.

use crate::factoids::{
    as_map, distinct_names, index_of, lemma_index_of, lemma_index_of_at, load, load_lines, lookup,
    record_of, records_of, serialize, upsert,
};
use crate::pattern::{find_sub, lemma_find_sub_at, split, starts_with};
use crate::text::{first_match, free_of, is_whitespace, lemma_first_match_at, CharClass};
use crate::words::{join, trim, trim_end, trim_start};
use vstd::prelude::*;

verus! {

/// Text without whitespace at either end.
pub open spec fn trimmed(text: Seq<char>) -> bool {
    text.len() == 0 || (!is_whitespace(text[0]) && !is_whitespace(text.last()))
}

/// An entry that the stored form can hold: the name has neither space nor
/// newline, the text has no newline and no whitespace at its ends.
pub open spec fn storable(entry: (Seq<char>, Seq<char>)) -> bool {
    &&& free_of(entry.0, CharClass::Exactly(' '))
    &&& free_of(entry.0, CharClass::Exactly('\n'))
    &&& free_of(entry.1, CharClass::Exactly('\n'))
    &&& trimmed(entry.1)
}

/// Every entry can be held by the stored form.
pub open spec fn all_storable(entries: Seq<(Seq<char>, Seq<char>)>) -> bool {
    forall|i: int| 0 <= i < entries.len() ==> storable(#[trigger] entries[i])
}

/// Defining a storable entry in a store of storable entries leaves a store
/// of storable entries.
pub proof fn lemma_upsert_storable(
    entries: Seq<(Seq<char>, Seq<char>)>,
    name: Seq<char>,
    text: Seq<char>,
)
    requires
        all_storable(entries),
        storable((name, text)),
    ensures
        all_storable(upsert(entries, name, text)),
{
    lemma_index_of(entries, name);
    let after = upsert(entries, name, text);
    let at = index_of(entries, name);
    assert forall|i: int| 0 <= i < after.len() implies storable(#[trigger] after[i]) by {
        if i != at {
            assert(after[i] == entries[i]);
        }
    }
}

/// What was defined under a name is what the name then holds.
pub proof fn lemma_define_then_get(
    entries: Seq<(Seq<char>, Seq<char>)>,
    name: Seq<char>,
    text: Seq<char>,
)
    ensures
        lookup(upsert(entries, name, text), name) == Some(text),
{
    lemma_index_of(entries, name);
    let at = index_of(entries, name);
    let after = upsert(entries, name, text);
    assert forall|i: int| 0 <= i < at implies (#[trigger] after[i]).0 != name by {
        assert(after[i] == entries[i]);
    }
    lemma_index_of_at(after, name, at);
}

/// Defining one name leaves what every other name holds.
pub proof fn lemma_define_keeps_others(
    entries: Seq<(Seq<char>, Seq<char>)>,
    name: Seq<char>,
    text: Seq<char>,
    other: Seq<char>,
)
    requires
        other != name,
    ensures
        lookup(upsert(entries, name, text), other) == lookup(entries, other),
{
    lemma_index_of(entries, name);
    lemma_index_of(entries, other);
    let at = index_of(entries, name);
    let k = index_of(entries, other);
    let after = upsert(entries, name, text);
    assert forall|i: int| 0 <= i < k implies (#[trigger] after[i]).0 != other by {
        if i != at {
            assert(after[i] == entries[i]);
        }
    }
    if k < entries.len() {
        assert(k != at);
        assert(after[k] == entries[k]);
    }
    if k == entries.len() && at == entries.len() {
        assert(after[k].0 == name);
        lemma_index_of_at(after, other, k + 1);
    } else {
        lemma_index_of_at(after, other, k);
    }
}

/// As a mapping, defining a name is inserting it.
pub proof fn lemma_define_is_insert(
    entries: Seq<(Seq<char>, Seq<char>)>,
    name: Seq<char>,
    text: Seq<char>,
)
    ensures
        as_map(upsert(entries, name, text)) == as_map(entries).insert(name, text),
{
    let after = upsert(entries, name, text);
    let m1 = as_map(after);
    let m2 = as_map(entries).insert(name, text);
    lemma_define_then_get(entries, name, text);
    assert forall|other: Seq<char>| #[trigger] m1.dom().contains(other) == m2.dom().contains(
        other,
    ) by {
        if other != name {
            lemma_define_keeps_others(entries, name, text, other);
            assert(m1.dom().contains(other) == (lookup(after, other) is Some));
            assert(as_map(entries).dom().contains(other) == (lookup(entries, other) is Some));
        } else {
            assert(lookup(after, name) is Some);
        }
    }
    assert forall|other: Seq<char>| #[trigger] m1.dom().contains(other) implies m1[other]
        == m2[other] by {
        if other != name {
            lemma_define_keeps_others(entries, name, text, other);
            assert(m1[other] == lookup(after, other)->0);
            assert(as_map(entries)[other] == lookup(entries, other)->0);
        } else {
            assert(m1[name] == lookup(after, name)->0);
        }
    }
    assert(m1 =~= m2);
}

/// In text without `c`, nothing is found; in front of the first `c`,
/// nothing either.
proof fn lemma_find_char(s: Seq<char>, c: char, n: int)
    requires
        0 <= n <= s.len(),
        forall|i: int| 0 <= i < n ==> (#[trigger] s[i]) != c,
        n < s.len() ==> s[n] == c,
    ensures
        find_sub(s, seq![c]) == n,
{
    let sep = seq![c];
    assert forall|j: int| 0 <= j < n implies !starts_with(#[trigger] s.skip(j), sep) by {
        if starts_with(s.skip(j), sep) {
            assert(s.skip(j).take(1)[0] == s[j]);
        }
    }
    if n < s.len() {
        assert(s.skip(n).take(1) =~= sep);
    }
    lemma_find_sub_at(s, sep, n);
}

/// Parts without `c`, joined by `c`, split on `c` into the same parts.
pub proof fn lemma_split_of_join(parts: Seq<Seq<char>>, c: char)
    requires
        parts.len() > 0,
        forall|i: int| 0 <= i < parts.len() ==> free_of(#[trigger] parts[i], CharClass::Exactly(c)),
    ensures
        split(join(parts, seq![c]), seq![c]) == parts,
    decreases parts.len(),
{
    let sep = seq![c];
    let first = parts[0];
    assert(free_of(first, CharClass::Exactly(c)));
    assert forall|i: int| 0 <= i < first.len() implies (#[trigger] first[i]) != c by {
        assert(!CharClass::Exactly(c).holds(first[i]));
    }
    if parts.len() == 1 {
        lemma_find_char(first, c, first.len() as int);
        assert(parts =~= seq![first]);
    } else {
        let rest = parts.drop_first();
        assert forall|i: int| 0 <= i < rest.len() implies free_of(
            #[trigger] rest[i],
            CharClass::Exactly(c),
        ) by {
            assert(rest[i] == parts[i + 1]);
        }
        lemma_split_of_join(rest, c);
        let s = first + sep + join(rest, sep);
        let n = first.len() as int;
        assert(s[n] == c);
        assert forall|i: int| 0 <= i < n implies (#[trigger] s[i]) != c by {
            assert(s[i] == first[i]);
        }
        lemma_find_char(s, c, n);
        assert(s.take(n) =~= first);
        assert(s.skip(n + 1) =~= join(rest, sep));
        assert(seq![first] + rest =~= parts);
    }
}

/// A stored line gives back the entry it was written from.
proof fn lemma_record_of_record(entry: (Seq<char>, Seq<char>))
    requires
        storable(entry),
    ensures
        record_of(entry.0 + " "@ + entry.1) == Some(entry),
        free_of(entry.0 + " "@ + entry.1, CharClass::Exactly('\n')),
{
    reveal_strlit(" ");
    let name = entry.0;
    let text = entry.1;
    let line = name + " "@ + text;
    let n = name.len() as int;
    assert(" "@ =~= seq![' ']);
    assert(line[n] == ' ');
    assert forall|i: int| 0 <= i < n implies !CharClass::Exactly(' ').holds(#[trigger] line[i]) by {
        assert(line[i] == name[i]);
    }
    lemma_first_match_at(line, CharClass::Exactly(' '), n);
    assert(line.take(n) =~= name);
    let rest = line.skip(n);
    assert(rest =~= seq![' '] + text);
    assert(is_whitespace(' '));
    if text.len() == 0 {
        lemma_first_match_at(rest, CharClass::NotWhitespace, 1);
        assert(rest.skip(1) =~= text);
    } else {
        assert(rest[1] == text[0]);
        lemma_first_match_at(rest, CharClass::NotWhitespace, 1);
        assert(rest.skip(1) =~= text);
    }
    assert(trim_start(rest) == text);
    assert(trim_end(text) == text);
    assert forall|i: int| 0 <= i < line.len() implies !CharClass::Exactly('\n').holds(
        #[trigger] line[i],
    ) by {
        if i < n {
            assert(line[i] == name[i]);
        } else if i > n {
            assert(line[i] == text[i - n - 1]);
        }
    }
}

/// The stored lines of a store, taken in order, define that store.
proof fn lemma_load_records(entries: Seq<(Seq<char>, Seq<char>)>)
    requires
        distinct_names(entries),
        forall|i: int| 0 <= i < entries.len() ==> storable(#[trigger] entries[i]),
    ensures
        load_lines(records_of(entries)) == entries,
    decreases entries.len(),
{
    let lines = records_of(entries);
    if entries.len() == 0 {
        assert(entries =~= Seq::<(Seq<char>, Seq<char>)>::empty());
    } else {
        let before = entries.drop_last();
        let last = entries.last();
        assert(lines.drop_last() =~= records_of(before));
        assert forall|i: int| 0 <= i < before.len() implies storable(#[trigger] before[i]) by {
            assert(before[i] == entries[i]);
        }
        assert(distinct_names(before)) by {
            assert forall|i: int, j: int|
                0 <= i < before.len() && 0 <= j < before.len() && i != j implies (
            #[trigger] before[i]).0 != (#[trigger] before[j]).0 by {
                assert(before[i] == entries[i]);
                assert(before[j] == entries[j]);
            }
        }
        lemma_load_records(before);
        assert(storable(last));
        lemma_record_of_record(last);
        assert(lines.last() == last.0 + " "@ + last.1);
        assert forall|i: int| 0 <= i < before.len() implies (#[trigger] before[i]).0 != last.0 by {
            assert(before[i] == entries[i]);
            assert(entries[entries.len() - 1] == last);
        }
        lemma_index_of_at(before, last.0, before.len() as int);
        assert(before.push(last) =~= entries);
    }
}

/// A store whose entries are all storable is read back, entry for entry,
/// from its stored form; so the mapping read back is the mapping stored.
pub proof fn lemma_store_round_trip(entries: Seq<(Seq<char>, Seq<char>)>)
    requires
        distinct_names(entries),
        all_storable(entries),
    ensures
        load(serialize(entries)) == entries,
        as_map(load(serialize(entries))) == as_map(entries),
{
    reveal_strlit("\n");
    assert("\n"@ =~= seq!['\n']);
    let lines = records_of(entries);
    if entries.len() == 0 {
        let nothing = Seq::<char>::empty();
        assert(join(lines, "\n"@) == nothing);
        lemma_find_char(nothing, '\n', 0);
        assert(split(nothing, seq!['\n']) == seq![nothing]);
        lemma_first_match_at(nothing, CharClass::Exactly(' '), 0);
        assert(seq![nothing].drop_last() =~= Seq::<Seq<char>>::empty());
        assert(load_lines(seq![nothing]) == load_lines(Seq::<Seq<char>>::empty()));
        assert(entries =~= Seq::<(Seq<char>, Seq<char>)>::empty());
    } else {
        assert forall|i: int| 0 <= i < lines.len() implies free_of(
            #[trigger] lines[i],
            CharClass::Exactly('\n'),
        ) by {
            assert(storable(entries[i]));
            lemma_record_of_record(entries[i]);
        }
        lemma_split_of_join(lines, '\n');
        lemma_load_records(entries);
    }
}

} // verus!
