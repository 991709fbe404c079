//! What holds of the parser on every line of the usual shapes.

use crate::message::{
    fold_trailing, params_of, parse_body, parse_line, parse_prefix, MessageView, ParseError,
    SenderView,
};
use crate::text::{first_match, free_of, is_whitespace, is_word_char, lemma_first_match, lemma_first_match_at, CharClass};
use crate::words::{is_word, join, lemma_words_step, words};
use vstd::prelude::*;

verus! {

/// Words that can stand as parameters before the last: none opens with `:`.
pub open spec fn plain_words(ws: Seq<Seq<char>>) -> bool {
    forall|i: int| 0 <= i < ws.len() ==> is_word(#[trigger] ws[i]) && ws[i][0] != ':'
}

/// The words of a last parameter: at least one; none holds whitespace; only
/// the first may be empty.
pub open spec fn trailing_words(ws: Seq<Seq<char>>) -> bool {
    &&& ws.len() > 0
    &&& forall|i: int| 0 <= i < ws.len() ==> free_of(#[trigger] ws[i], CharClass::Whitespace)
    &&& forall|i: int| 1 <= i < ws.len() ==> (#[trigger] ws[i]).len() > 0
}

/// A command token: word characters, at least one.
pub open spec fn command_token(c: Seq<char>) -> bool {
    c.len() > 0 && free_of(c, CharClass::NotWord)
}

/// The parameter section that holds `middle` and then, behind a colon, the
/// words of the last parameter, all separated by single spaces.
pub open spec fn section(middle: Seq<Seq<char>>, trailing: Seq<Seq<char>>) -> Seq<char> {
    join(middle + seq![":"@ + trailing[0]] + trailing.drop_first(), " "@)
}

/// A sender as the parser gives it: no part is empty, and a user's host
/// holds no whitespace.
pub open spec fn sender_is_sound(sender: SenderView) -> bool {
    match sender {
        SenderView::Server(host) => host.len() > 0,
        SenderView::User(nick, user, host) => nick.len() > 0 && user.len() > 0 && is_word(host),
        SenderView::Nobody => true,
    }
}

/// Parameters as the parser gives them: only the last can be anything but a
/// word.
pub open spec fn params_are_sound(params: Seq<Seq<char>>) -> bool {
    forall|i: int| 0 <= i < params.len() - 1 ==> is_word(#[trigger] params[i])
}

/// The trailing rule gives sound parameters, in the order of the words.
pub proof fn lemma_fold_trailing_is_sound(tokens: Seq<Seq<char>>)
    requires
        forall|i: int| 0 <= i < tokens.len() ==> is_word(#[trigger] tokens[i]),
    ensures
        params_are_sound(fold_trailing(tokens)),
        fold_trailing(tokens).len() <= tokens.len(),
        forall|i: int|
            0 <= i < fold_trailing(tokens).len() - 1 ==> #[trigger] fold_trailing(tokens)[i]
                == tokens[i],
    decreases tokens.len(),
{
    if tokens.len() > 0 && tokens[0][0] != ':' {
        let rest = tokens.drop_first();
        assert forall|i: int| 0 <= i < rest.len() implies is_word(#[trigger] rest[i]) by {
            assert(rest[i] == tokens[i + 1]);
        }
        lemma_fold_trailing_is_sound(rest);
        let out = fold_trailing(tokens);
        assert(is_word(tokens[0]));
        assert forall|i: int| 0 <= i < out.len() - 1 implies is_word(#[trigger] out[i]) && out[i]
            == tokens[i] by {
            if i > 0 {
                assert(out[i] == fold_trailing(rest)[i - 1]);
                assert(rest[i - 1] == tokens[i]);
            }
        }
    } else if tokens.len() > 0 {
        assert(is_word(tokens[0]));
    }
}

/// Whatever line parses gives a sound sender, a command token, and sound
/// parameters.
pub proof fn lemma_parsed_is_sound(line: Seq<char>)
    requires
        parse_line(line) is Ok,
    ensures
        sender_is_sound(parse_line(line)->Ok_0.sender),
        command_token(parse_line(line)->Ok_0.command),
        params_are_sound(parse_line(line)->Ok_0.params),
{
    let body = if line.len() > 0 && line[0] == ':' {
        line.skip(first_match(line, CharClass::Exactly(' ')) + 1)
    } else {
        line
    };
    let n = first_match(body, CharClass::NotWord);
    lemma_first_match(body, CharClass::NotWord);
    assert(parse_body(body) is Ok);
    let command = parse_body(body)->Ok_0.0;
    assert forall|i: int| 0 <= i < command.len() implies !CharClass::NotWord.holds(
        #[trigger] command[i],
    ) by {
        assert(command[i] == body[i]);
    }
    if n < body.len() {
        let section = body.skip(n + 1);
        crate::words::lemma_words_are_words(section);
        lemma_fold_trailing_is_sound(words(section));
    }
    if line.len() > 0 && line[0] == ':' {
        let sp = first_match(line, CharClass::Exactly(' '));
        let prefix = line.subrange(1, sp);
        lemma_first_match(prefix, CharClass::Exactly('!'));
        let bang = first_match(prefix, CharClass::Exactly('!'));
        if bang < prefix.len() {
            lemma_first_match(prefix.skip(bang + 1), CharClass::Exactly('@'));
        }
    }
}

/// Whitespace in front of a text adds no word.
pub proof fn lemma_words_after_space(c: char, s: Seq<char>)
    requires
        is_whitespace(c),
    ensures
        words(seq![c] + s) == words(s),
{
    let t = seq![c] + s;
    assert(t.drop_first() =~= s);
    lemma_words_step(t);
    lemma_words_step(s);
    let start = first_match(s, CharClass::NotWhitespace);
    if start < s.len() {
        let end = start + first_match(s.skip(start), CharClass::Whitespace);
        assert(t.skip(start + 1) =~= s.skip(start));
        assert(t.subrange(start + 1, end + 1) =~= s.subrange(start, end));
        assert(t.skip(end + 1) =~= s.skip(end));
    }
}

/// A word in front of a text that is empty or opens with whitespace is the
/// first word of the whole.
pub proof fn lemma_words_cons(w: Seq<char>, tail: Seq<char>)
    requires
        is_word(w),
        tail.len() == 0 || is_whitespace(tail[0]),
    ensures
        words(w + tail) == seq![w] + words(tail),
{
    let s = w + tail;
    lemma_words_step(s);
    assert(s[0] == w[0]);
    lemma_first_match_at(s, CharClass::NotWhitespace, 0);
    assert(s.skip(0) =~= s);
    assert forall|i: int| 0 <= i < w.len() implies !CharClass::Whitespace.holds(#[trigger] s[i]) by {
        assert(s[i] == w[i]);
    }
    if w.len() < s.len() {
        assert(s[w.len() as int] == tail[0]);
    }
    lemma_first_match_at(s, CharClass::Whitespace, w.len() as int);
    assert(s.subrange(0, w.len() as int) =~= w);
    assert(s.skip(w.len() as int) =~= tail);
}

/// Words joined by single spaces split into the same words.
pub proof fn lemma_words_of_join(tokens: Seq<Seq<char>>)
    requires
        forall|i: int| 0 <= i < tokens.len() ==> is_word(#[trigger] tokens[i]),
    ensures
        words(join(tokens, " "@)) == tokens,
    decreases tokens.len(),
{
    reveal_strlit(" ");
    if tokens.len() == 0 {
        lemma_words_step(Seq::<char>::empty());
        assert(tokens =~= Seq::<Seq<char>>::empty());
    } else if tokens.len() == 1 {
        lemma_words_cons(tokens[0], Seq::<char>::empty());
        lemma_words_step(Seq::<char>::empty());
        assert(tokens[0] + Seq::<char>::empty() =~= tokens[0]);
        assert(seq![tokens[0]] + Seq::<Seq<char>>::empty() =~= tokens);
    } else {
        let rest = tokens.drop_first();
        assert forall|i: int| 0 <= i < rest.len() implies is_word(#[trigger] rest[i]) by {
            assert(rest[i] == tokens[i + 1]);
        }
        lemma_words_of_join(rest);
        let tail = " "@ + join(rest, " "@);
        assert(" "@ =~= seq![' ']);
        assert(tail[0] == ' ');
        lemma_words_cons(tokens[0], tail);
        lemma_words_after_space(' ', join(rest, " "@));
        assert(tokens[0] + " "@ + join(rest, " "@) =~= tokens[0] + tail);
        assert(seq![tokens[0]] + rest =~= tokens);
    }
}

/// Plain words in front pass through the trailing rule unchanged.
pub proof fn lemma_fold_trailing_after(middle: Seq<Seq<char>>, rest: Seq<Seq<char>>)
    requires
        plain_words(middle),
    ensures
        fold_trailing(middle + rest) == middle + fold_trailing(rest),
    decreases middle.len(),
{
    if middle.len() == 0 {
        assert(middle + rest =~= rest);
        assert(middle + fold_trailing(rest) =~= fold_trailing(rest));
    } else {
        let all = middle + rest;
        let m = middle.drop_first();
        assert(all[0] == middle[0]);
        assert(is_word(middle[0]));
        assert(all.drop_first() =~= m + rest);
        assert forall|i: int| 0 <= i < m.len() implies is_word(#[trigger] m[i]) && m[i][0]
            != ':' by {
            assert(m[i] == middle[i + 1]);
        }
        lemma_fold_trailing_after(m, rest);
        assert(seq![middle[0]] + (m + fold_trailing(rest)) =~= middle + fold_trailing(rest));
    }
}

/// The parameters of a section are its middle words and then its last
/// parameter, whose words stay joined.
pub proof fn lemma_params_of_section(middle: Seq<Seq<char>>, trailing: Seq<Seq<char>>)
    requires
        plain_words(middle),
        trailing_words(trailing),
    ensures
        params_of(section(middle, trailing)) == middle.push(join(trailing, " "@)),
{
    reveal_strlit(":");
    reveal_strlit(" ");
    let head = ":"@ + trailing[0];
    let tail = trailing.drop_first();
    let last = seq![head] + tail;
    let tokens = middle + seq![head] + tail;
    assert(":"@ =~= seq![':']);
    assert(head[0] == ':');
    assert forall|i: int| 0 <= i < head.len() implies !CharClass::Whitespace.holds(
        #[trigger] head[i],
    ) by {
        if i > 0 {
            assert(head[i] == trailing[0][i - 1]);
        }
    }
    assert forall|i: int| 0 <= i < tokens.len() implies is_word(#[trigger] tokens[i]) by {
        if i < middle.len() {
            assert(tokens[i] == middle[i]);
        } else if i == middle.len() {
            assert(tokens[i] == head);
        } else {
            assert(tokens[i] == trailing[i - middle.len()]);
        }
    }
    lemma_words_of_join(tokens);
    assert(tokens =~= middle + last);
    lemma_fold_trailing_after(middle, last);
    assert(last[0] == head);
    assert(fold_trailing(last) == seq![join(last, " "@).drop_first()]);
    assert(last.drop_first() =~= tail);
    if tail.len() == 0 {
        assert(trailing =~= seq![trailing[0]]);
        assert(join(last, " "@).drop_first() =~= trailing[0]);
    } else {
        assert(join(last, " "@).drop_first() =~= trailing[0] + " "@ + join(tail, " "@));
    }
    assert(join(last, " "@).drop_first() == join(trailing, " "@));
    assert(middle + seq![join(trailing, " "@)] =~= middle.push(join(trailing, " "@)));
}

/// A command token, a space and a parameter section parse to that command
/// and the parameters of the section.
pub proof fn lemma_parse_body(command: Seq<char>, rest: Seq<char>)
    requires
        command_token(command),
    ensures
        parse_body(command + " "@ + rest) == Ok::<(Seq<char>, Seq<Seq<char>>), ParseError>(
            (command, params_of(rest)),
        ),
        (command + " "@ + rest)[0] != ':',
{
    reveal_strlit(" ");
    let body = command + " "@ + rest;
    let n = command.len() as int;
    assert(" "@ =~= seq![' ']);
    assert(body[n] == ' ');
    assert(!is_word_char(' '));
    assert forall|i: int| 0 <= i < n implies !CharClass::NotWord.holds(#[trigger] body[i]) by {
        assert(body[i] == command[i]);
    }
    lemma_first_match_at(body, CharClass::NotWord, n);
    assert(body.take(n) =~= command);
    assert(body.skip(n + 1) =~= rest);
    assert(body[0] == command[0]);
    assert(!CharClass::NotWord.holds(command[0]));
    assert(is_word_char(command[0]));
}

/// Behind `:prefix ` the rest of the line is parsed as command and
/// parameters, and the prefix names the sender.
pub proof fn lemma_parse_prefixed(prefix: Seq<char>, body: Seq<char>)
    requires
        free_of(prefix, CharClass::Exactly(' ')),
    ensures
        parse_line(":"@ + prefix + " "@ + body) == match parse_prefix(prefix) {
            None => Err::<MessageView, ParseError>(ParseError::Prefix),
            Some(sender) => match parse_body(body) {
                Err(e) => Err(e),
                Ok((command, params)) => Ok(MessageView { sender, command, params }),
            },
        },
{
    reveal_strlit(":");
    reveal_strlit(" ");
    let line = ":"@ + prefix + " "@ + body;
    let sp = prefix.len() as int + 1;
    assert(":"@ =~= seq![':']);
    assert(" "@ =~= seq![' ']);
    assert(line[0] == ':');
    assert(line[sp] == ' ');
    assert forall|i: int| 0 <= i < sp implies !CharClass::Exactly(' ').holds(#[trigger] line[i]) by {
        if i > 0 {
            assert(line[i] == prefix[i - 1]);
        }
    }
    lemma_first_match_at(line, CharClass::Exactly(' '), sp);
    assert(line.subrange(1, sp) =~= prefix);
    assert(line.skip(sp + 1) =~= body);
}

/// `nick!user@host` names a user.
pub proof fn lemma_parse_user_prefix(nick: Seq<char>, user: Seq<char>, host: Seq<char>)
    requires
        nick.len() > 0,
        free_of(nick, CharClass::Exactly('!')),
        user.len() > 0,
        free_of(user, CharClass::Exactly('@')),
        is_word(host),
    ensures
        parse_prefix(nick + "!"@ + user + "@"@ + host) == Some(SenderView::User(nick, user, host)),
{
    reveal_strlit("!");
    reveal_strlit("@");
    let prefix = nick + "!"@ + user + "@"@ + host;
    let bang = nick.len() as int;
    assert("!"@ =~= seq!['!']);
    assert("@"@ =~= seq!['@']);
    assert(prefix[bang] == '!');
    assert forall|i: int| 0 <= i < bang implies !CharClass::Exactly('!').holds(
        #[trigger] prefix[i],
    ) by {
        assert(prefix[i] == nick[i]);
    }
    lemma_first_match_at(prefix, CharClass::Exactly('!'), bang);
    let rest = prefix.skip(bang + 1);
    assert(rest =~= user + "@"@ + host);
    let at = user.len() as int;
    assert(rest[at] == '@');
    assert forall|i: int| 0 <= i < at implies !CharClass::Exactly('@').holds(#[trigger] rest[i]) by {
        assert(rest[i] == user[i]);
    }
    lemma_first_match_at(rest, CharClass::Exactly('@'), at);
    assert(prefix.take(bang) =~= nick);
    assert(rest.take(at) =~= user);
    assert(rest.skip(at + 1) =~= host);
}

/// A line `:nick!user@host COMMAND middle... :trailing...` comes from that
/// user, carries that command, and has as parameters the middle words and
/// then the whole trailing text as one.
pub proof fn lemma_parse_user_line(
    nick: Seq<char>,
    user: Seq<char>,
    host: Seq<char>,
    command: Seq<char>,
    middle: Seq<Seq<char>>,
    trailing: Seq<Seq<char>>,
)
    requires
        nick.len() > 0,
        free_of(nick, CharClass::Exactly('!')),
        free_of(nick, CharClass::Exactly(' ')),
        user.len() > 0,
        free_of(user, CharClass::Exactly('@')),
        free_of(user, CharClass::Exactly(' ')),
        is_word(host),
        command_token(command),
        plain_words(middle),
        trailing_words(trailing),
    ensures
        parse_line(
            ":"@ + (nick + "!"@ + user + "@"@ + host) + " "@ + (command + " "@ + section(
                middle,
                trailing,
            )),
        ) == Ok::<MessageView, ParseError>(
            MessageView {
                sender: SenderView::User(nick, user, host),
                command,
                params: middle.push(join(trailing, " "@)),
            },
        ),
{
    reveal_strlit("!");
    reveal_strlit("@");
    let prefix = nick + "!"@ + user + "@"@ + host;
    assert("!"@ =~= seq!['!']);
    assert("@"@ =~= seq!['@']);
    assert forall|i: int| 0 <= i < prefix.len() implies !CharClass::Exactly(' ').holds(
        #[trigger] prefix[i],
    ) by {
        let a = nick.len() as int;
        let b = a + 1 + user.len();
        if i < a {
            assert(prefix[i] == nick[i]);
        } else if i == a {
        } else if i < b {
            assert(prefix[i] == user[i - a - 1]);
        } else if i == b {
        } else {
            assert(prefix[i] == host[i - b - 1]);
            assert(!CharClass::Whitespace.holds(host[i - b - 1]));
        }
    }
    lemma_parse_user_prefix(nick, user, host);
    lemma_params_of_section(middle, trailing);
    lemma_parse_body(command, section(middle, trailing));
    lemma_parse_prefixed(prefix, command + " "@ + section(middle, trailing));
}

/// A line `COMMAND middle... :trailing...`, without a prefix, comes from
/// nobody, and its parameters follow the same rule.
pub proof fn lemma_parse_bare_line(
    command: Seq<char>,
    middle: Seq<Seq<char>>,
    trailing: Seq<Seq<char>>,
)
    requires
        command_token(command),
        plain_words(middle),
        trailing_words(trailing),
    ensures
        parse_line(command + " "@ + section(middle, trailing)) == Ok::<MessageView, ParseError>(
            MessageView {
                sender: SenderView::Nobody,
                command,
                params: middle.push(join(trailing, " "@)),
            },
        ),
{
    lemma_params_of_section(middle, trailing);
    lemma_parse_body(command, section(middle, trailing));
}

/// A line `:server COMMAND middle... :trailing...`, whose prefix holds no
/// `!`, comes from that server.
pub proof fn lemma_parse_server_line(
    server: Seq<char>,
    command: Seq<char>,
    middle: Seq<Seq<char>>,
    trailing: Seq<Seq<char>>,
)
    requires
        server.len() > 0,
        free_of(server, CharClass::Exactly('!')),
        free_of(server, CharClass::Exactly(' ')),
        command_token(command),
        plain_words(middle),
        trailing_words(trailing),
    ensures
        parse_line(":"@ + server + " "@ + (command + " "@ + section(middle, trailing))) == Ok::<
            MessageView,
            ParseError,
        >(
            MessageView {
                sender: SenderView::Server(server),
                command,
                params: middle.push(join(trailing, " "@)),
            },
        ),
{
    lemma_first_match_at(server, CharClass::Exactly('!'), server.len() as int);
    lemma_params_of_section(middle, trailing);
    lemma_parse_body(command, section(middle, trailing));
    lemma_parse_prefixed(server, command + " "@ + section(middle, trailing));
}

} // verus!
