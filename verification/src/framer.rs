//! Cutting the incoming stream into lines.
//!
//! A line ends with a carriage return and a line feed. The framer gathers
//! what arrives until the gathered text ends with that terminator, and then
//! hands out every line gathered so far.

use crate::pattern::{
    ends_with, find_sub, lemma_find_sub, occurs_in, pieces, split, split_bounds, starts_with,
};
use crate::pattern_laws::{
    lemma_join_of_split, lemma_pieces_hold_no_separator, lemma_split_is_not_empty,
};
use crate::words::join;
use crate::text::{chars_of, copy_range, string_of};
use vstd::prelude::*;
use vstd::string::*;

verus! {

/// The lines of `buffer` that are complete: every piece but the one after the
/// last terminator.
pub open spec fn complete_lines(buffer: Seq<char>) -> Seq<Seq<char>> {
    split(buffer, "\r\n"@).drop_last()
}

/// What stands in `buffer` after its last terminator.
pub open spec fn unfinished(buffer: Seq<char>) -> Seq<char> {
    split(buffer, "\r\n"@).last()
}

/// The text that a sequence of bytes decodes to, with U+FFFD in place of
/// what is not UTF-8.
pub uninterp spec fn utf8_lossy(bytes: Seq<u8>) -> Seq<char>;

/// `String::from_utf8_lossy`: the result is a function of the bytes alone,
/// and nothing more is claimed of it.
#[verifier::external_body]
fn decode_lossy(bytes: &[u8]) -> (s: String)
    ensures
        s@ == utf8_lossy(bytes@),
{
    String::from_utf8_lossy(bytes).into_owned()
}

/// Text that ends with the terminator leaves nothing unfinished.
pub proof fn lemma_terminated_leaves_nothing(buffer: Seq<char>)
    requires
        ends_with(buffer, "\r\n"@),
    ensures
        unfinished(buffer) == Seq::<char>::empty(),
    decreases buffer.len(),
{
    reveal_strlit("\r\n");
    let sep = "\r\n"@;
    let n = buffer.len() as int;
    let i = find_sub(buffer, sep);
    lemma_find_sub(buffer, sep);
    assert(buffer.skip(n - 2) == sep);
    assert(starts_with(buffer.skip(n - 2), sep)) by {
        assert(buffer.skip(n - 2).take(2) =~= buffer.skip(n - 2));
    }
    assert(i <= n - 2);
    let rest = buffer.skip(i + 2);
    assert(split(buffer, sep) == seq![buffer.take(i)] + split(rest, sep));
    assert(split(rest, sep).len() > 0) by {
        lemma_find_sub(rest, sep);
    }
    assert(split(buffer, sep).last() == split(rest, sep).last());
    if i == n - 2 {
        assert(rest =~= Seq::<char>::empty());
    } else {
        assert(buffer.skip(i).take(2) == sep);
        assert(buffer.skip(i).take(2)[1] == buffer[i + 1]);
        assert(buffer.skip(n - 2)[0] == buffer[n - 2]);
        assert(i + 1 != n - 2);
        assert(rest.skip(rest.len() - 2) =~= buffer.skip(n - 2));
        lemma_terminated_leaves_nothing(rest);
    }
}

/// Framing loses nothing: the complete lines and the unfinished rest, with
/// the terminator between them, are the text that was gathered.
pub proof fn lemma_framing_loses_nothing(buffer: Seq<char>)
    ensures
        join(complete_lines(buffer).push(unfinished(buffer)), "\r\n"@) == buffer,
{
    reveal_strlit("\r\n");
    lemma_split_is_not_empty(buffer, "\r\n"@);
    lemma_join_of_split(buffer, "\r\n"@);
    let all = split(buffer, "\r\n"@);
    assert(all.drop_last().push(all.last()) =~= all);
}

/// No line that is handed out holds a terminator.
pub proof fn lemma_lines_hold_no_terminator(buffer: Seq<char>, k: int)
    requires
        0 <= k < complete_lines(buffer).len(),
    ensures
        !occurs_in("\r\n"@, complete_lines(buffer)[k]),
{
    reveal_strlit("\r\n");
    lemma_pieces_hold_no_separator(buffer, "\r\n"@, k);
}

/// The text gathered and not yet handed out.
pub struct LineFramer {
    buffer: Vec<char>,
}

impl View for LineFramer {
    type V = Seq<char>;

    closed spec fn view(&self) -> Seq<char> {
        self.buffer@
    }
}

impl LineFramer {
    /// A framer that has gathered nothing.
    pub fn new() -> (framer: LineFramer)
        ensures
            framer@ == Seq::<char>::empty(),
    {
        LineFramer { buffer: Vec::new() }
    }

    /// Hands out the complete lines gathered so far, and keeps what follows
    /// the last terminator.
    pub fn drain(&mut self) -> (lines: Vec<String>)
        ensures
            lines.deep_view() == complete_lines(old(self)@),
            final(self)@ == unfinished(old(self)@),
    {
        let sep: Vec<char> = vec!['\r', '\n'];
        proof {
            reveal_strlit("\r\n");
            assert(sep@ =~= "\r\n"@);
        }
        let bounds = split_bounds(&self.buffer, &sep);
        let ghost all = pieces(self.buffer@, bounds@);
        let mut lines: Vec<String> = Vec::new();
        let mut k: usize = 0;
        let last = bounds.len() - 1;
        assert(lines.deep_view() =~= all.take(0));
        while k < last
            invariant
                k <= last == bounds.len() - 1,
                all == pieces(self.buffer@, bounds@),
                forall|j: int|
                    0 <= j < bounds.len() ==> (#[trigger] bounds[j]).0 <= bounds[j].1
                        <= self.buffer.len(),
                lines.deep_view() == all.take(k as int),
            decreases last - k,
        {
            let ghost before = lines.deep_view();
            let (a, b) = bounds[k];
            let line = string_of(&self.buffer, a, b);
            lines.push(line);
            proof {
                assert(lines.deep_view() =~= before.push(all[k as int]));
                assert(all.take(k + 1) =~= before.push(all[k as int]));
            }
            k += 1;
        }
        let (a, b) = bounds[last];
        let rest = copy_range(&self.buffer, a, b);
        proof {
            assert(all.take(last as int) =~= all.drop_last());
            assert(rest@ == all.last());
        }
        self.buffer = rest;
        lines
    }

    /// Gathers `chunk`. If the gathered text now ends with a terminator, hands
    /// out all its lines and keeps nothing; otherwise hands out nothing.
    pub fn push_str(&mut self, chunk: &str) -> (lines: Vec<String>)
        ensures
            ({
                let gathered = old(self)@ + chunk@;
                if ends_with(gathered, "\r\n"@) {
                    &&& lines.deep_view() == complete_lines(gathered)
                    &&& final(self)@ == Seq::<char>::empty()
                } else {
                    &&& lines.deep_view() == Seq::<Seq<char>>::empty()
                    &&& final(self)@ == gathered
                }
            }),
    {
        let mut more = chars_of(chunk);
        self.buffer.append(&mut more);
        let n = self.buffer.len();
        proof {
            reveal_strlit("\r\n");
        }
        if n >= 2 && self.buffer[n - 2] == '\r' && self.buffer[n - 1] == '\n' {
            proof {
                assert(self.buffer@.skip(n - 2) =~= "\r\n"@);
                lemma_terminated_leaves_nothing(self.buffer@);
            }
            self.drain()
        } else {
            proof {
                if n >= 2 {
                    let tail = self.buffer@.skip(n - 2);
                    assert(tail[0] == self.buffer@[n - 2]);
                    assert(tail[1] == self.buffer@[n - 1]);
                }
            }
            let lines: Vec<String> = Vec::new();
            assert(lines.deep_view() =~= Seq::<Seq<char>>::empty());
            lines
        }
    }

    /// Gathers a chunk of bytes as it came off the wire, decoded leniently.
    pub fn push(&mut self, bytes: &[u8]) -> (lines: Vec<String>)
        ensures
            ({
                let gathered = old(self)@ + utf8_lossy(bytes@);
                if ends_with(gathered, "\r\n"@) {
                    &&& lines.deep_view() == complete_lines(gathered)
                    &&& final(self)@ == Seq::<char>::empty()
                } else {
                    &&& lines.deep_view() == Seq::<Seq<char>>::empty()
                    &&& final(self)@ == gathered
                }
            }),
    {
        let chunk = decode_lossy(bytes);
        self.push_str(chunk.as_str())
    }
}

/// An outgoing line with its terminator.
pub fn terminate(line: &str) -> (out: String)
    ensures
        out@ == line@ + "\r\n"@,
{
    let mut out = String::from_str(line);
    out.append("\r\n");
    out
}

} // verus!
