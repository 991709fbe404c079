//! What holds of the bot's answers on every input.

use crate::bot::{
    idle, invocation, on_batch, on_line, on_message, on_privmsg, privmsg, run, say, settle,
    with_store, ActionView, BotView, Step,
};
use crate::factoids::{distinct_names, lemma_upsert_distinct, load, lookup, serialize};
use crate::factoids_laws::{
    all_storable, lemma_define_then_get, lemma_store_round_trip, lemma_upsert_storable, storable,
};
use crate::message::{parse_body, parse_line, MessageView, ParseError, SenderView};
use crate::pattern::{lemma_find_sub_at, occurs_in, replace, split, starts_with};
use crate::text::{free_of, is_whitespace, is_word_char, lemma_first_match_at, CharClass};
use crate::words::{is_word, join, lemma_words_are_words, words};
use vstd::prelude::*;

verus! {

/// Replacing `PING` in a line that opens with it, and holds it nowhere
/// else, puts `PONG` in front of the untouched rest.
pub proof fn lemma_pong_of_ping(rest: Seq<char>)
    requires
        !occurs_in("PING"@, rest),
    ensures
        replace("PING"@ + rest, "PING"@, "PONG"@) == "PONG"@ + rest,
{
    reveal_strlit("PING");
    let pat = "PING"@;
    let s = pat + rest;
    assert(s.take(4) =~= pat);
    assert(starts_with(s, pat));
    assert(s.skip(4) =~= rest);
    assert forall|j: int| 0 <= j < rest.len() implies !starts_with(#[trigger] rest.skip(j), pat) by {
        if starts_with(rest.skip(j), pat) {
            assert(occurs_in(pat, rest));
        }
    }
    lemma_find_sub_at(rest, pat, rest.len() as int);
    assert(split(rest, pat) == seq![rest]);
    assert(split(s, pat) == seq![s.take(0)] + split(rest, pat));
    let parts = split(s, pat);
    assert(parts =~= seq![s.take(0), rest]);
    assert(parts.drop_first() =~= seq![rest]);
    assert(join(seq![rest], "PONG"@) == rest);
    assert(join(parts, "PONG"@) == parts[0] + "PONG"@ + join(parts.drop_first(), "PONG"@));
    assert(join(parts, "PONG"@) =~= "PONG"@ + rest);
}

/// A line that is `PING`, alone or followed by a space and anything without
/// a second `PING`, is answered by the same line with `PONG` for `PING`, and
/// by nothing else.
pub proof fn lemma_ping_is_answered(bot: BotView, rest: Seq<char>)
    requires
        rest.len() == 0 || rest[0] == ' ',
        !occurs_in("PING"@, rest),
    ensures
        on_line(bot, "PING"@ + rest) == Ok::<Step, ParseError>(
            say(bot.factoids, "PONG"@ + rest),
        ),
{
    reveal_strlit("PING");
    let pat = "PING"@;
    let line = pat + rest;
    assert(is_word_char('P') && is_word_char('I') && is_word_char('N') && is_word_char('G'));
    assert(!is_word_char(' '));
    assert(!is_word_char(':'));
    assert forall|i: int| 0 <= i < 4 implies !CharClass::NotWord.holds(#[trigger] line[i]) by {
        assert(line[i] == pat[i]);
    }
    if rest.len() > 0 {
        assert(line[4] == rest[0]);
    }
    lemma_first_match_at(line, CharClass::NotWord, 4);
    assert(line[0] == 'P');
    if rest.len() == 0 {
        assert(line =~= pat);
    } else {
        assert(line.take(4) =~= pat);
    }
    assert(parse_body(line) is Ok);
    assert(parse_body(line)->Ok_0.0 == pat);
    assert(parse_line(line) is Ok);
    assert(parse_line(line)->Ok_0.command == pat);
    lemma_pong_of_ping(rest);
}

/// `defact` with fewer than two arguments changes nothing and says nothing.
pub proof fn lemma_short_defact_is_idle(
    store: Seq<(Seq<char>, Seq<char>)>,
    sender: SenderView,
    target: Seq<char>,
    args: Seq<Seq<char>>,
)
    requires
        args.len() < 2,
    ensures
        run(store, sender, target, "defact"@, args) == idle(store),
{
}

/// A chat message that invokes `defact` with fewer than two arguments
/// changes nothing and says nothing.
pub proof fn lemma_short_defact_message_is_idle(
    store: Seq<(Seq<char>, Seq<char>)>,
    trigger: char,
    m: MessageView,
)
    requires
        m.params.len() >= 2,
        invocation(m.params[1], trigger) matches Some(call) && call.0 == "defact"@ && call.1.len()
            < 2,
    ensures
        on_privmsg(store, trigger, m) == idle(store),
{
}

/// A name that is no command and that the store does not hold changes
/// nothing and says nothing.
pub proof fn lemma_unknown_name_is_silent(
    store: Seq<(Seq<char>, Seq<char>)>,
    sender: SenderView,
    target: Seq<char>,
    name: Seq<char>,
    args: Seq<Seq<char>>,
)
    requires
        name != "defact"@,
        name != "factoids"@,
        name != "at"@,
        lookup(store, name) is None,
    ensures
        run(store, sender, target, name, args) == idle(store),
{
}

/// `at` with a name that the store does not hold tells a user so, and says
/// nothing to a server or to nobody; the store stays as it is.
pub proof fn lemma_at_absent(
    store: Seq<(Seq<char>, Seq<char>)>,
    sender: SenderView,
    target: Seq<char>,
    args: Seq<Seq<char>>,
)
    requires
        args.len() >= 2,
        lookup(store, args[1]) is None,
    ensures
        run(store, sender, target, "at"@, args) == match sender {
            SenderView::User(nick, _, _) => say(
                store,
                privmsg(target, nick + ": No such factoid: "@ + args[1]),
            ),
            _ => idle(store),
        },
{
    reveal_strlit("at");
    reveal_strlit("defact");
    reveal_strlit("factoids");
    assert("at"@.len() != "defact"@.len());
    assert("at"@.len() != "factoids"@.len());
}

/// `at` with a name that the store holds sends its text, addressed to the
/// recipient, whoever asked.
pub proof fn lemma_at_present(
    store: Seq<(Seq<char>, Seq<char>)>,
    sender: SenderView,
    target: Seq<char>,
    args: Seq<Seq<char>>,
)
    requires
        args.len() >= 2,
        lookup(store, args[1]) is Some,
    ensures
        run(store, sender, target, "at"@, args) == say(
            store,
            privmsg(target, args[0] + ": "@ + lookup(store, args[1])->0),
        ),
{
    reveal_strlit("at");
    reveal_strlit("defact");
    reveal_strlit("factoids");
    assert("at"@.len() != "defact"@.len());
    assert("at"@.len() != "factoids"@.len());
}

/// `defact` with a name and at least one word stores the words, joined by
/// single spaces, under the name, asks for the store to be saved, and
/// confirms to a user.
pub proof fn lemma_defact_defines(
    store: Seq<(Seq<char>, Seq<char>)>,
    nick: Seq<char>,
    user: Seq<char>,
    host: Seq<char>,
    target: Seq<char>,
    args: Seq<Seq<char>>,
)
    requires
        args.len() >= 2,
    ensures
        ({
            let step = run(store, SenderView::User(nick, user, host), target, "defact"@, args);
            &&& lookup(step.store, args[0]) == Some(join(args.skip(1), " "@))
            &&& step.actions.len() == 2
            &&& step.actions[0] == ActionView::Send(
                privmsg(target, nick + ": defined "@ + args[0]),
            )
            &&& step.actions[1] is Save
        }),
{
    lemma_define_then_get(store, args[0], join(args.skip(1), " "@));
}

/// A store that can be written and read back: no name twice, every entry
/// storable.
pub open spec fn store_is_sound(store: Seq<(Seq<char>, Seq<char>)>) -> bool {
    distinct_names(store) && all_storable(store)
}

/// Words joined by single spaces hold no newline and no whitespace at
/// either end.
pub proof fn lemma_joined_words(ws: Seq<Seq<char>>)
    requires
        ws.len() > 0,
        forall|i: int| 0 <= i < ws.len() ==> is_word(#[trigger] ws[i]),
    ensures
        join(ws, " "@).len() > 0,
        !is_whitespace(join(ws, " "@)[0]),
        !is_whitespace(join(ws, " "@).last()),
        free_of(join(ws, " "@), CharClass::Exactly('\n')),
    decreases ws.len(),
{
    reveal_strlit(" ");
    let first = ws[0];
    assert(is_word(first));
    assert(!CharClass::Whitespace.holds(first[0]));
    assert(!CharClass::Whitespace.holds(first.last()));
    assert(is_whitespace('\n'));
    if ws.len() == 1 {
        assert forall|i: int| 0 <= i < first.len() implies !CharClass::Exactly('\n').holds(
            #[trigger] first[i],
        ) by {
            assert(!CharClass::Whitespace.holds(first[i]));
        }
    } else {
        let rest = ws.drop_first();
        assert forall|i: int| 0 <= i < rest.len() implies is_word(#[trigger] rest[i]) by {
            assert(rest[i] == ws[i + 1]);
        }
        lemma_joined_words(rest);
        let tail = join(rest, " "@);
        let all = first + " "@ + tail;
        assert(all[0] == first[0]);
        assert(all.last() == tail.last());
        assert forall|i: int| 0 <= i < all.len() implies !CharClass::Exactly('\n').holds(
            #[trigger] all[i],
        ) by {
            if i < first.len() {
                assert(all[i] == first[i]);
                assert(!CharClass::Whitespace.holds(first[i]));
            } else if i == first.len() {
                assert(all[i] == ' ');
            } else {
                assert(all[i] == tail[i - first.len() - 1]);
            }
        }
    }
}

/// No command, given words as arguments, spoils the store.
pub proof fn lemma_run_keeps_store_sound(
    store: Seq<(Seq<char>, Seq<char>)>,
    sender: SenderView,
    target: Seq<char>,
    verb: Seq<char>,
    args: Seq<Seq<char>>,
)
    requires
        store_is_sound(store),
        forall|i: int| 0 <= i < args.len() ==> is_word(#[trigger] args[i]),
    ensures
        store_is_sound(run(store, sender, target, verb, args).store),
{
    if args.len() >= 2 {
        let name = args[0];
        let rest = args.skip(1);
        let text = join(rest, " "@);
        assert forall|i: int| 0 <= i < rest.len() implies is_word(#[trigger] rest[i]) by {
            assert(rest[i] == args[i + 1]);
        }
        lemma_joined_words(rest);
        assert(is_word(name));
        assert(is_whitespace(' ') && is_whitespace('\n'));
        assert forall|i: int| 0 <= i < name.len() implies !CharClass::Exactly(' ').holds(
            #[trigger] name[i],
        ) && !CharClass::Exactly('\n').holds(name[i]) by {
            assert(!CharClass::Whitespace.holds(name[i]));
        }
        assert(storable((name, text)));
        lemma_upsert_distinct(store, name, text);
        lemma_upsert_storable(store, name, text);
    }
}

/// No line spoils the store.
pub proof fn lemma_line_keeps_store_sound(bot: BotView, line: Seq<char>)
    requires
        store_is_sound(bot.factoids),
    ensures
        store_is_sound(settle(bot, line).store),
{
    match parse_line(line) {
        Ok(m) => {
            if m.params.len() >= 2 {
                match invocation(m.params[1], bot.trigger) {
                    Some((verb, args)) => {
                        let text = m.params[1].drop_first();
                        let sp = crate::text::first_match(text, CharClass::Exactly(' '));
                        lemma_words_are_words(text.skip(sp));
                        lemma_run_keeps_store_sound(bot.factoids, m.sender, m.params[0], verb, args);
                    },
                    None => {},
                }
            }
        },
        Err(_) => {},
    }
}

/// No batch of lines spoils the store: what the bot asks to be saved can
/// always be loaded again as it was.
pub proof fn lemma_batch_keeps_store_sound(bot: BotView, lines: Seq<Seq<char>>)
    requires
        store_is_sound(bot.factoids),
    ensures
        store_is_sound(on_batch(bot, lines).store),
        load(serialize(on_batch(bot, lines).store)) == on_batch(bot, lines).store,
    decreases lines.len(),
{
    if lines.len() == 0 || lines[0].len() == 0 {
    } else {
        lemma_line_keeps_store_sound(bot, lines[0]);
        lemma_batch_keeps_store_sound(
            with_store(bot, settle(bot, lines[0]).store),
            lines.drop_first(),
        );
    }
    lemma_store_round_trip(on_batch(bot, lines).store);
}

/// Only `defact` changes the store.
pub proof fn lemma_only_defact_changes_store(
    store: Seq<(Seq<char>, Seq<char>)>,
    sender: SenderView,
    target: Seq<char>,
    verb: Seq<char>,
    args: Seq<Seq<char>>,
)
    requires
        verb != "defact"@,
    ensures
        run(store, sender, target, verb, args).store == store,
{
}

/// A line whose command is neither `PING`, `001` nor `PRIVMSG` changes
/// nothing and says nothing.
pub proof fn lemma_other_commands_are_ignored(bot: BotView, line: Seq<char>, m: MessageView)
    requires
        m.command != "PING"@,
        m.command != "001"@,
        m.command != "PRIVMSG"@,
    ensures
        on_message(bot, line, m) == idle(bot.factoids),
{
}

} // verus!
