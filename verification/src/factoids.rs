//! The factoid store: named snippets of text, kept in the order in which
//! their names were first defined.

use crate::pattern::{pieces, split, split_bounds};
use crate::text::{chars_of, find, first_match, string_of, CharClass};
use crate::words::{join, lemma_join_push, trim, trim_in};
use vstd::prelude::*;
use vstd::string::*;

verus! {

/// The index of the first entry named `name`, or `entries.len()` when there
/// is none.
pub open spec fn index_of(entries: Seq<(Seq<char>, Seq<char>)>, name: Seq<char>) -> int
    decreases entries.len(),
{
    if entries.len() == 0 || entries[0].0 == name {
        0
    } else {
        1 + index_of(entries.drop_first(), name)
    }
}

/// The text stored under `name`, if any.
pub open spec fn lookup(entries: Seq<(Seq<char>, Seq<char>)>, name: Seq<char>) -> Option<
    Seq<char>,
> {
    let i = index_of(entries, name);
    if i < entries.len() {
        Some(entries[i].1)
    } else {
        None
    }
}

/// The entries after `name` is defined as `text`: an entry of that name is
/// overwritten where it stands, a new name goes to the end.
pub open spec fn upsert(entries: Seq<(Seq<char>, Seq<char>)>, name: Seq<char>, text: Seq<char>) -> Seq<
    (Seq<char>, Seq<char>),
> {
    let i = index_of(entries, name);
    if i < entries.len() {
        entries.update(i, (name, text))
    } else {
        entries.push((name, text))
    }
}

/// The names, in the order of the entries.
pub open spec fn names_of(entries: Seq<(Seq<char>, Seq<char>)>) -> Seq<Seq<char>> {
    Seq::new(entries.len(), |i: int| entries[i].0)
}

/// No name occurs twice.
pub open spec fn distinct_names(entries: Seq<(Seq<char>, Seq<char>)>) -> bool {
    forall|i: int, j: int|
        0 <= i < entries.len() && 0 <= j < entries.len() && i != j ==> (#[trigger] entries[i]).0
            != (#[trigger] entries[j]).0
}

/// The entries as a mapping from name to text.
pub open spec fn as_map(entries: Seq<(Seq<char>, Seq<char>)>) -> Map<Seq<char>, Seq<char>> {
    Map::new(
        |name: Seq<char>| index_of(entries, name) < entries.len(),
        |name: Seq<char>| entries[index_of(entries, name)].1,
    )
}

/// One stored line per entry: the name, a space, the text.
pub open spec fn records_of(entries: Seq<(Seq<char>, Seq<char>)>) -> Seq<Seq<char>> {
    Seq::new(entries.len(), |i: int| entries[i].0 + " "@ + entries[i].1)
}

/// The stored form: the records, separated by newlines.
pub open spec fn serialize(entries: Seq<(Seq<char>, Seq<char>)>) -> Seq<char> {
    join(records_of(entries), "\n"@)
}

/// The entry that a stored line holds: the name is what stands before the
/// first space, the text is the rest, trimmed. A line without a space holds
/// none.
pub open spec fn record_of(line: Seq<char>) -> Option<(Seq<char>, Seq<char>)> {
    let sp = first_match(line, CharClass::Exactly(' '));
    if sp < line.len() {
        Some((line.take(sp), trim(line.skip(sp))))
    } else {
        None
    }
}

/// The entries that a list of stored lines defines, taken in order.
pub open spec fn load_lines(lines: Seq<Seq<char>>) -> Seq<(Seq<char>, Seq<char>)>
    decreases lines.len(),
{
    if lines.len() == 0 {
        seq![]
    } else {
        let before = load_lines(lines.drop_last());
        match record_of(lines.last()) {
            Some((name, text)) => upsert(before, name, text),
            None => before,
        }
    }
}

/// The entries that stored content defines.
pub open spec fn load(contents: Seq<char>) -> Seq<(Seq<char>, Seq<char>)> {
    load_lines(split(contents, "\n"@))
}

pub proof fn lemma_index_of(entries: Seq<(Seq<char>, Seq<char>)>, name: Seq<char>)
    ensures
        0 <= index_of(entries, name) <= entries.len(),
        forall|i: int| 0 <= i < index_of(entries, name) ==> (#[trigger] entries[i]).0 != name,
        index_of(entries, name) < entries.len() ==> entries[index_of(entries, name)].0 == name,
    decreases entries.len(),
{
    if entries.len() == 0 || entries[0].0 == name {
    } else {
        let t = entries.drop_first();
        lemma_index_of(t, name);
        assert forall|i: int| 0 <= i < index_of(entries, name) implies (#[trigger] entries[i]).0
            != name by {
            if i > 0 {
                assert(entries[i] == t[i - 1]);
            }
        }
        if index_of(entries, name) < entries.len() {
            assert(entries[index_of(entries, name)] == t[index_of(t, name)]);
        }
    }
}

pub proof fn lemma_index_of_at(entries: Seq<(Seq<char>, Seq<char>)>, name: Seq<char>, n: int)
    requires
        0 <= n <= entries.len(),
        forall|i: int| 0 <= i < n ==> (#[trigger] entries[i]).0 != name,
        n < entries.len() ==> entries[n].0 == name,
    ensures
        index_of(entries, name) == n,
    decreases entries.len(),
{
    if entries.len() == 0 {
    } else if entries[0].0 == name {
        if n > 0 {
            assert(entries[0].0 != name);
        }
    } else {
        let t = entries.drop_first();
        assert forall|i: int| 0 <= i < n - 1 implies (#[trigger] t[i]).0 != name by {
            assert(t[i] == entries[i + 1]);
        }
        if n < entries.len() {
            assert(t[n - 1] == entries[n]);
        }
        lemma_index_of_at(t, name, n - 1);
    }
}

/// Defining a name keeps the names distinct.
pub proof fn lemma_upsert_distinct(
    entries: Seq<(Seq<char>, Seq<char>)>,
    name: Seq<char>,
    text: Seq<char>,
)
    requires
        distinct_names(entries),
    ensures
        distinct_names(upsert(entries, name, text)),
{
    lemma_index_of(entries, name);
    let after = upsert(entries, name, text);
    let at = index_of(entries, name);
    assert forall|i: int, j: int|
        0 <= i < after.len() && 0 <= j < after.len() && i != j implies (#[trigger] after[i]).0 != (
    #[trigger] after[j]).0 by {
        if at < entries.len() {
            if i != at {
                assert(after[i] == entries[i]);
            }
            if j != at {
                assert(after[j] == entries[j]);
            }
            assert(entries[at].0 == name);
            assert(entries[i].0 != entries[j].0);
        } else {
            if i < entries.len() {
                assert(after[i] == entries[i]);
            }
            if j < entries.len() {
                assert(after[j] == entries[j]);
            }
            if i < entries.len() && j < entries.len() {
                assert(entries[i].0 != entries[j].0);
            }
        }
    }
}

struct Entry {
    name: String,
    text: String,
}

/// The factoid store.
pub struct Factoids {
    entries: Vec<Entry>,
}

impl View for Factoids {
    type V = Seq<(Seq<char>, Seq<char>)>;

    closed spec fn view(&self) -> Seq<(Seq<char>, Seq<char>)> {
        Seq::new(self.entries@.len(), |i: int| (self.entries@[i].name@, self.entries@[i].text@))
    }
}

impl Factoids {
    /// No name occurs twice. Every store that this module builds is
    /// well-formed, and defining a factoid keeps it so.
    pub open spec fn well_formed(&self) -> bool {
        distinct_names(self@)
    }

    /// The empty store.
    pub fn new() -> (store: Factoids)
        ensures
            store@ == Seq::<(Seq<char>, Seq<char>)>::empty(),
            store.well_formed(),
    {
        let store = Factoids { entries: Vec::new() };
        assert(store@ =~= Seq::<(Seq<char>, Seq<char>)>::empty());
        store
    }

    /// The number of factoids.
    pub fn len(&self) -> (n: usize)
        ensures
            n == self@.len(),
    {
        self.entries.len()
    }

    fn position(&self, name: &String) -> (i: usize)
        ensures
            i == index_of(self@, name@),
            i <= self.entries.len(),
    {
        let mut i: usize = 0;
        while i < self.entries.len() && !(self.entries[i].name == *name)
            invariant
                i <= self.entries.len(),
                forall|j: int| 0 <= j < i ==> (#[trigger] self@[j]).0 != name@,
            decreases self.entries.len() - i,
        {
            i += 1;
        }
        proof {
            lemma_index_of_at(self@, name@, i as int);
        }
        i
    }

    /// Stores `contents` under `name`, in place of what the name held before.
    pub fn define_factoid(&mut self, name: String, contents: String)
        ensures
            final(self)@ == upsert(old(self)@, name@, contents@),
            old(self).well_formed() ==> final(self).well_formed(),
    {
        proof {
            if self.well_formed() {
                lemma_upsert_distinct(self@, name@, contents@);
            }
        }
        let i = self.position(&name);
        let ghost after = upsert(self@, name@, contents@);
        if i < self.entries.len() {
            self.entries.set(i, Entry { name, text: contents });
            assert(self@ =~= after);
        } else {
            self.entries.push(Entry { name, text: contents });
            assert(self@ =~= after);
        }
    }

    /// The text stored under `name`.
    pub fn get(&self, name: &str) -> (r: Option<&String>)
        ensures
            match r {
                Some(text) => lookup(self@, name@) == Some(text@),
                None => lookup(self@, name@) is None,
            },
    {
        let key = String::from_str(name);
        let i = self.position(&key);
        if i < self.entries.len() {
            Some(&self.entries[i].text)
        } else {
            None
        }
    }

    /// The names, in the order of the entries.
    pub fn names(&self) -> (out: Vec<String>)
        ensures
            out.deep_view() == names_of(self@),
    {
        let mut out: Vec<String> = Vec::new();
        let mut k: usize = 0;
        while k < self.entries.len()
            invariant
                k <= self.entries.len(),
                out.deep_view() == names_of(self@).take(k as int),
            decreases self.entries.len() - k,
        {
            let ghost before = out.deep_view();
            out.push(self.entries[k].name.clone());
            proof {
                assert(out.deep_view() =~= before.push(self@[k as int].0));
                assert(names_of(self@).take(k + 1) =~= before.push(self@[k as int].0));
            }
            k += 1;
        }
        assert(names_of(self@).take(self@.len() as int) =~= names_of(self@));
        out
    }

    /// The stored form of the whole store.
    pub fn serialize(&self) -> (out: String)
        ensures
            out@ == serialize(self@),
    {
        let mut out = String::new();
        let mut k: usize = 0;
        assert(records_of(self@).take(0) =~= Seq::<Seq<char>>::empty());
        while k < self.entries.len()
            invariant
                k <= self.entries.len(),
                out@ == join(records_of(self@).take(k as int), "\n"@),
            decreases self.entries.len() - k,
        {
            let ghost done = records_of(self@).take(k as int);
            let ghost record = records_of(self@)[k as int];
            if k > 0 {
                out.append("\n");
            }
            let ghost mid = out@;
            out.append(self.entries[k].name.as_str());
            out.append(" ");
            out.append(self.entries[k].text.as_str());
            proof {
                assert(out@ =~= mid + record);
                lemma_join_push(done, record, "\n"@);
                assert(records_of(self@).take(k + 1) =~= done.push(record));
            }
            k += 1;
        }
        assert(records_of(self@).take(self@.len() as int) =~= records_of(self@));
        out
    }

    /// The store that stored content defines.
    pub fn load(contents: &str) -> (store: Factoids)
        ensures
            store@ == load(contents@),
            store.well_formed(),
    {
        let v = chars_of(contents);
        let sep: Vec<char> = vec!['\n'];
        proof {
            reveal_strlit("\n");
            assert(sep@ =~= "\n"@);
        }
        let bounds = split_bounds(&v, &sep);
        let ghost lines = pieces(v@, bounds@);
        let mut store = Factoids::new();
        let mut k: usize = 0;
        assert(lines.take(0) =~= Seq::<Seq<char>>::empty());
        while k < bounds.len()
            invariant
                k <= bounds.len(),
                lines == pieces(v@, bounds@),
                forall|j: int|
                    0 <= j < bounds.len() ==> (#[trigger] bounds[j]).0 <= bounds[j].1 <= v.len(),
                store@ == load_lines(lines.take(k as int)),
                store.well_formed(),
            decreases bounds.len() - k,
        {
            let (a, b) = bounds[k];
            let ghost line = lines[k as int];
            proof {
                assert(line == v@.subrange(a as int, b as int));
                assert(lines.take(k + 1).drop_last() =~= lines.take(k as int));
                assert(lines.take(k + 1).last() == line);
            }
            let sp = find(&v, a, b, CharClass::Exactly(' '));
            if sp < b {
                let name = string_of(&v, a, sp);
                let (ta, tb) = trim_in(&v, sp, b);
                let text = string_of(&v, ta, tb);
                proof {
                    assert(line.take(sp - a) =~= v@.subrange(a as int, sp as int));
                    assert(line.skip(sp - a) =~= v@.subrange(sp as int, b as int));
                }
                store.define_factoid(name, text);
            }
            k += 1;
        }
        assert(lines.take(bounds.len() as int) =~= lines);
        store
    }
}

} // verus!
