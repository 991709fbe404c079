//! What holds of splitting on every text: nothing is lost, and no piece
//! holds the separator.

use crate::pattern::{find_sub, lemma_find_sub, occurs_in, split, starts_with};
use crate::words::join;
use vstd::prelude::*;

verus! {

/// Splitting never gives no piece at all.
pub proof fn lemma_split_is_not_empty(s: Seq<char>, sep: Seq<char>)
    ensures
        split(s, sep).len() > 0,
{
    if sep.len() > 0 {
        lemma_find_sub(s, sep);
    }
}

/// The pieces, joined by the separator again, are the text that was split.
pub proof fn lemma_join_of_split(s: Seq<char>, sep: Seq<char>)
    requires
        sep.len() > 0,
    ensures
        join(split(s, sep), sep) == s,
    decreases s.len(),
{
    let i = find_sub(s, sep);
    lemma_find_sub(s, sep);
    if i < s.len() {
        let rest = s.skip(i + sep.len());
        let tail = split(rest, sep);
        let all = split(s, sep);
        lemma_join_of_split(rest, sep);
        lemma_split_is_not_empty(rest, sep);
        assert(all == seq![s.take(i)] + tail);
        assert(all.drop_first() =~= tail);
        assert(all[0] == s.take(i));
        assert(join(all, sep) == s.take(i) + sep + join(tail, sep));
        assert(s.skip(i).take(sep.len() as int) == sep);
        assert(s.take(i) + s.skip(i).take(sep.len() as int) + rest =~= s);
    }
}

/// No piece holds the separator.
pub proof fn lemma_pieces_hold_no_separator(s: Seq<char>, sep: Seq<char>, k: int)
    requires
        sep.len() > 0,
        0 <= k < split(s, sep).len(),
    ensures
        !occurs_in(sep, split(s, sep)[k]),
    decreases s.len(),
{
    let i = find_sub(s, sep);
    lemma_find_sub(s, sep);
    let piece = s.take(i);
    assert forall|p: int| 0 <= p <= piece.len() implies !starts_with(
        #[trigger] piece.skip(p),
        sep,
    ) by {
        if starts_with(piece.skip(p), sep) {
            assert(p < i);
            assert(s.skip(p).take(sep.len() as int) =~= piece.skip(p).take(sep.len() as int));
            assert(starts_with(s.skip(p), sep));
        }
    }
    if i >= s.len() {
        assert(piece =~= s);
    } else if k > 0 {
        let rest = s.skip(i + sep.len());
        assert(split(s, sep)[k] == split(rest, sep)[k - 1]);
        lemma_pieces_hold_no_separator(rest, sep, k - 1);
    }
}

} // verus!
