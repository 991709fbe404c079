//! The structured form of one protocol line, and the parser that builds it.
//!
//! A line is an optional prefix, a command and an optional parameter
//! section:
//!
//! ```text
//! [":" prefix " "] command [" " parameters]
//! ```
//!
//! The prefix runs up to the first space of the line and is either a server
//! name or `nick!user@host`. The command is a run of ASCII letters, digits
//! and underscores. The parameters are separated by whitespace; a parameter
//! that opens with `:` is the last one and takes the rest of the line.

use crate::text::{chars_of, find, first_match, free_of, lemma_first_match, string_of, CharClass};
use crate::words::{is_word, join, join_from, lemma_words_are_words, split_words_in, words};
use vstd::prelude::*;
use vstd::string::*;

verus! {

/// Who a message came from.
#[derive(Debug, Clone, PartialEq, Eq)]
pub enum Sender {
    /// A server, by host name.
    Server(String),
    /// A user, by nickname, user name and host name.
    User(String, String, String),
    /// The line carried no prefix.
    Nobody,
}

/// The mathematical value of a [`Sender`].
pub enum SenderView {
    Server(Seq<char>),
    User(Seq<char>, Seq<char>, Seq<char>),
    Nobody,
}

impl View for Sender {
    type V = SenderView;

    open spec fn view(&self) -> SenderView {
        match *self {
            Sender::Server(host) => SenderView::Server(host@),
            Sender::User(nick, user, host) => SenderView::User(nick@, user@, host@),
            Sender::Nobody => SenderView::Nobody,
        }
    }
}

/// One parsed protocol line.
#[derive(Debug, Clone, PartialEq, Eq)]
pub struct IrcMessage {
    pub sender: Sender,
    pub command: String,
    pub params: Vec<String>,
}

/// The mathematical value of an [`IrcMessage`].
pub struct MessageView {
    pub sender: SenderView,
    pub command: Seq<char>,
    pub params: Seq<Seq<char>>,
}

impl View for IrcMessage {
    type V = MessageView;

    open spec fn view(&self) -> MessageView {
        MessageView {
            sender: self.sender@,
            command: self.command@,
            params: self.params.deep_view(),
        }
    }
}

/// Why a line is not a message.
#[derive(Debug, Clone, Copy, PartialEq, Eq, Structural)]
pub enum ParseError {
    /// The line opens with `:` but the prefix is not followed by a space, or
    /// is neither `name` nor `nick!user@host`.
    Prefix,
    /// No command token stands where one is due.
    Command,
    /// The command token is followed by something other than a space.
    Separator,
}

/// The sender that a prefix (the text between the opening `:` and the first
/// space) names: `nick!user@host` is a user, a name without `!` a server.
pub open spec fn parse_prefix(prefix: Seq<char>) -> Option<SenderView> {
    let bang = first_match(prefix, CharClass::Exactly('!'));
    if bang >= prefix.len() {
        if prefix.len() > 0 {
            Some(SenderView::Server(prefix))
        } else {
            None
        }
    } else {
        let nick = prefix.take(bang);
        let rest = prefix.skip(bang + 1);
        let at = first_match(rest, CharClass::Exactly('@'));
        let user = rest.take(at);
        let host = rest.skip(at + 1);
        if nick.len() > 0 && at < rest.len() && user.len() > 0 && is_word(host) {
            Some(SenderView::User(nick, user, host))
        } else {
            None
        }
    }
}

/// The parameters of a parameter section: its words, except that from the
/// first word that opens with `:` on, the rest of the words, joined by single
/// spaces and without that colon, are one last parameter.
pub open spec fn fold_trailing(tokens: Seq<Seq<char>>) -> Seq<Seq<char>>
    decreases tokens.len(),
{
    if tokens.len() == 0 {
        seq![]
    } else if tokens[0].len() > 0 && tokens[0][0] == ':' {
        seq![join(tokens, " "@).drop_first()]
    } else {
        seq![tokens[0]] + fold_trailing(tokens.drop_first())
    }
}

/// The parameters that a parameter section holds.
pub open spec fn params_of(section: Seq<char>) -> Seq<Seq<char>> {
    fold_trailing(words(section))
}

/// The command and parameters of a line without its prefix: a non-empty run
/// of word characters, then either nothing or a space and the parameter
/// section.
pub open spec fn parse_body(body: Seq<char>) -> Result<(Seq<char>, Seq<Seq<char>>), ParseError> {
    let n = first_match(body, CharClass::NotWord);
    if n == 0 {
        Err(ParseError::Command)
    } else if n >= body.len() {
        Ok((body, seq![]))
    } else if body[n] == ' ' {
        Ok((body.take(n), params_of(body.skip(n + 1))))
    } else {
        Err(ParseError::Separator)
    }
}

/// What a line means, or the first thing that is wrong with it: the prefix
/// is judged before the command.
pub open spec fn parse_line(line: Seq<char>) -> Result<MessageView, ParseError> {
    if line.len() > 0 && line[0] == ':' {
        let sp = first_match(line, CharClass::Exactly(' '));
        if sp >= line.len() {
            Err(ParseError::Prefix)
        } else {
            match parse_prefix(line.subrange(1, sp)) {
                None => Err(ParseError::Prefix),
                Some(sender) => match parse_body(line.skip(sp + 1)) {
                    Err(e) => Err(e),
                    Ok((command, params)) => Ok(MessageView { sender, command, params }),
                },
            }
        }
    } else {
        match parse_body(line) {
            Err(e) => Err(e),
            Ok((command, params)) => Ok(
                MessageView { sender: SenderView::Nobody, command, params },
            ),
        }
    }
}

/// A joined sequence is at least as long as its first part.
pub proof fn lemma_join_len(parts: Seq<Seq<char>>, sep: Seq<char>)
    requires
        parts.len() > 0,
    ensures
        join(parts, sep).len() >= parts[0].len(),
{
}

fn parse_prefix_in(v: &Vec<char>, from: usize, to: usize) -> (r: Option<Sender>)
    requires
        from <= to <= v.len(),
    ensures
        match r {
            Some(s) => parse_prefix(v@.subrange(from as int, to as int)) == Some(s@),
            None => parse_prefix(v@.subrange(from as int, to as int)) is None,
        },
{
    let ghost prefix = v@.subrange(from as int, to as int);
    let bang = find(v, from, to, CharClass::Exactly('!'));
    if bang >= to {
        if to > from {
            Some(Sender::Server(string_of(v, from, to)))
        } else {
            None
        }
    } else {
        let ghost rest = prefix.skip(bang - from + 1);
        assert(rest =~= v@.subrange(bang + 1, to as int));
        let at = find(v, bang + 1, to, CharClass::Exactly('@'));
        let ghost host = rest.skip(at - bang);
        if bang == from || at >= to || at == bang + 1 || at + 1 >= to {
            None
        } else {
            assert(host =~= v@.subrange(at + 1, to as int));
            assert(prefix.take(bang - from) =~= v@.subrange(from as int, bang as int));
            assert(rest.take(at - bang - 1) =~= v@.subrange(bang + 1, at as int));
            let ws = find(v, at + 1, to, CharClass::Whitespace);
            proof {
                lemma_first_match(host, CharClass::Whitespace);
            }
            if ws < to {
                assert(CharClass::Whitespace.holds(host[ws - at - 1]));
                None
            } else {
                Some(
                    Sender::User(
                        string_of(v, from, bang),
                        string_of(v, bang + 1, at),
                        string_of(v, at + 1, to),
                    ),
                )
            }
        }
    }
}

fn split_params_in(v: &Vec<char>, from: usize, to: usize) -> (out: Vec<String>)
    requires
        from <= to <= v.len(),
    ensures
        out.deep_view() == params_of(v@.subrange(from as int, to as int)),
{
    let tokens = split_words_in(v, from, to);
    let ghost all = tokens.deep_view();
    proof {
        lemma_words_are_words(v@.subrange(from as int, to as int));
    }
    let mut out: Vec<String> = Vec::new();
    let mut i: usize = 0;
    assert(out.deep_view() + fold_trailing(all.skip(0)) =~= fold_trailing(all)) by {
        assert(all.skip(0) =~= all);
    }
    while i < tokens.len()
        invariant
            i <= tokens.len(),
            from <= to <= v.len(),
            all == tokens.deep_view(),
            all == words(v@.subrange(from as int, to as int)),
            forall|j: int| 0 <= j < all.len() ==> is_word(#[trigger] all[j]),
            fold_trailing(all) == out.deep_view() + fold_trailing(all.skip(i as int)),
        decreases tokens.len() - i,
    {
        let ghost rest = all.skip(i as int);
        let ghost before = out.deep_view();
        assert(rest[0] == tokens[i as int]@);
        assert(is_word(all[i as int]));
        assert(rest.drop_first() =~= all.skip(i + 1));
        if tokens[i].as_str().get_char(0) == ':' {
            let joined = join_from(&tokens, i, " ");
            let jc = chars_of(joined.as_str());
            proof {
                lemma_join_len(rest, " "@);
            }
            let last = string_of(&jc, 1, jc.len());
            out.push(last);
            proof {
                assert(jc@.subrange(1, jc@.len() as int) =~= joined@.drop_first());
                assert(out.deep_view() =~= before.push(last@));
                assert(before.push(last@) =~= before + seq![last@]);
            }
            return out;
        }
        out.push(tokens[i].clone());
        proof {
            assert(out.deep_view() =~= before.push(rest[0]));
            assert(before + (seq![rest[0]] + fold_trailing(all.skip(i + 1))) =~= before.push(
                rest[0],
            ) + fold_trailing(all.skip(i + 1)));
        }
        i += 1;
    }
    assert(out.deep_view() + Seq::<Seq<char>>::empty() =~= out.deep_view());
    out
}

fn parse_body_in(v: &Vec<char>, from: usize, to: usize) -> (r: Result<
    (String, Vec<String>),
    ParseError,
>)
    requires
        from <= to <= v.len(),
    ensures
        match r {
            Ok(p) => parse_body(v@.subrange(from as int, to as int)) == Ok::<
                (Seq<char>, Seq<Seq<char>>),
                ParseError,
            >((p.0@, p.1.deep_view())),
            Err(e) => parse_body(v@.subrange(from as int, to as int)) == Err::<
                (Seq<char>, Seq<Seq<char>>),
                ParseError,
            >(e),
        },
{
    let ghost body = v@.subrange(from as int, to as int);
    let n = find(v, from, to, CharClass::NotWord);
    if n == from {
        Err(ParseError::Command)
    } else if n >= to {
        let command = string_of(v, from, to);
        let params: Vec<String> = Vec::new();
        assert(params.deep_view() =~= Seq::<Seq<char>>::empty());
        Ok((command, params))
    } else if v[n] == ' ' {
        assert(body[n - from] == v@[n as int]);
        assert(body.take(n - from) =~= v@.subrange(from as int, n as int));
        assert(body.skip(n - from + 1) =~= v@.subrange(n + 1, to as int));
        let command = string_of(v, from, n);
        let params = split_params_in(v, n + 1, to);
        Ok((command, params))
    } else {
        assert(body[n - from] == v@[n as int]);
        Err(ParseError::Separator)
    }
}

impl IrcMessage {
    /// Parses one line, given without its line terminator.
    pub fn new(line: &str) -> (r: Result<IrcMessage, ParseError>)
        ensures
            match r {
                Ok(m) => parse_line(line@) == Ok::<MessageView, ParseError>(m@),
                Err(e) => parse_line(line@) == Err::<MessageView, ParseError>(e),
            },
    {
        let v = chars_of(line);
        let n = v.len();
        assert(v@.subrange(0, n as int) =~= v@);
        if n > 0 && v[0] == ':' {
            let sp = find(&v, 0, n, CharClass::Exactly(' '));
            if sp >= n {
                return Err(ParseError::Prefix);
            }
            proof {
                lemma_first_match(v@, CharClass::Exactly(' '));
                assert(v@.skip(sp + 1) =~= v@.subrange(sp + 1, n as int));
            }
            let sender = match parse_prefix_in(&v, 1, sp) {
                Some(s) => s,
                None => {
                    return Err(ParseError::Prefix);
                },
            };
            match parse_body_in(&v, sp + 1, n) {
                Ok((command, params)) => Ok(IrcMessage { sender, command, params }),
                Err(e) => Err(e),
            }
        } else {
            match parse_body_in(&v, 0, n) {
                Ok((command, params)) => Ok(
                    IrcMessage { sender: Sender::Nobody, command, params },
                ),
                Err(e) => Err(e),
            }
        }
    }

    /// Splits a parameter section into parameters.
    pub fn split_params(params: String) -> (out: Vec<String>)
        ensures
            out.deep_view() == params_of(params@),
    {
        let v = chars_of(params.as_str());
        assert(v@.subrange(0, v@.len() as int) =~= v@);
        split_params_in(&v, 0, v.len())
    }
}

} // verus!
