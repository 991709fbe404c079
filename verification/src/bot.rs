//! The bot: what it answers to each incoming line, and what it does to its
//! factoid store.
//!
//! The bot performs nothing itself. Each call returns the actions that its
//! caller is to carry out, in order.

use crate::factoids::{distinct_names, lookup, names_of, serialize, upsert, Factoids};
use crate::message::{parse_line, IrcMessage, MessageView, ParseError, Sender, SenderView};
use crate::pattern::{replace, replace_all};
use crate::text::{chars_of, find, first_match, same_text, string_of, CharClass};
use crate::words::{join, join_from, split_words_in, words};
use vstd::prelude::*;
use vstd::string::*;

verus! {

/// Something for the caller to carry out.
#[derive(Debug, Clone, PartialEq, Eq)]
pub enum Action {
    /// Send this line to the server.
    Send(String),
    /// Write this content to the factoid file, in place of what it holds.
    Save(String),
    /// This line was not a message and was passed over.
    Skip(String),
}

/// The mathematical value of an [`Action`].
pub enum ActionView {
    Send(Seq<char>),
    Save(Seq<char>),
    Skip(Seq<char>),
}

impl View for Action {
    type V = ActionView;

    open spec fn view(&self) -> ActionView {
        match *self {
            Action::Send(line) => ActionView::Send(line@),
            Action::Save(contents) => ActionView::Save(contents@),
            Action::Skip(line) => ActionView::Skip(line@),
        }
    }
}

impl DeepView for Action {
    type V = ActionView;

    open spec fn deep_view(&self) -> ActionView {
        self@
    }
}

/// The mathematical value of an [`OxygenBot`].
pub struct BotView {
    pub nickname: Seq<char>,
    pub channels: Seq<Seq<char>>,
    pub trigger: char,
    pub factoids: Seq<(Seq<char>, Seq<char>)>,
}

/// What one step leaves behind: the store after it, and the actions it asks
/// for.
pub struct Step {
    pub store: Seq<(Seq<char>, Seq<char>)>,
    pub actions: Seq<ActionView>,
}

/// The step that changes nothing and asks for nothing.
pub open spec fn idle(store: Seq<(Seq<char>, Seq<char>)>) -> Step {
    Step { store, actions: seq![] }
}

/// The step that leaves the store alone and sends one line.
pub open spec fn say(store: Seq<(Seq<char>, Seq<char>)>, line: Seq<char>) -> Step {
    Step { store, actions: seq![ActionView::Send(line)] }
}

/// A chat message to `target`.
pub open spec fn privmsg(target: Seq<char>, text: Seq<char>) -> Seq<char> {
    "PRIVMSG "@ + target + " :"@ + text
}

/// The command that a message body invokes, if it opens with the trigger:
/// the verb is what stands between the trigger and the first space, the
/// arguments are the words of the rest.
pub open spec fn invocation(body: Seq<char>, trigger: char) -> Option<
    (Seq<char>, Seq<Seq<char>>),
> {
    if body.len() > 0 && body[0] == trigger {
        let text = body.drop_first();
        let sp = first_match(text, CharClass::Exactly(' '));
        Some((text.take(sp), words(text.skip(sp))))
    } else {
        None
    }
}

/// What a command does.
///
/// - `defact name word...` stores the words, joined by single spaces, under
///   the name, confirms to a user, and asks for the store to be saved. With
///   fewer than two arguments it does nothing.
/// - `factoids` lists the names, in the order of the store, addressed to the
///   user who asked where a user asked.
/// - `at recipient name` sends what the name holds, addressed to the
///   recipient. Where the name holds nothing, a user is told so and anyone
///   else gets no answer. With fewer than two arguments it does nothing.
/// - Any other verb is taken as a name: what it holds is sent, and where it
///   holds nothing, nothing is.
///
/// Every answer goes to `target`.
pub open spec fn run(
    store: Seq<(Seq<char>, Seq<char>)>,
    sender: SenderView,
    target: Seq<char>,
    verb: Seq<char>,
    args: Seq<Seq<char>>,
) -> Step {
    if verb == "defact"@ {
        if args.len() >= 2 {
            let after = upsert(store, args[0], join(args.skip(1), " "@));
            let save = seq![ActionView::Save(serialize(after))];
            match sender {
                SenderView::User(nick, _, _) => Step {
                    store: after,
                    actions: seq![
                        ActionView::Send(privmsg(target, nick + ": defined "@ + args[0])),
                    ] + save,
                },
                _ => Step { store: after, actions: save },
            }
        } else {
            idle(store)
        }
    } else if verb == "factoids"@ {
        let list = join(names_of(store), " "@);
        match sender {
            SenderView::User(nick, _, _) => say(store, privmsg(target, nick + ": "@ + list)),
            _ => say(store, privmsg(target, list)),
        }
    } else if verb == "at"@ {
        if args.len() >= 2 {
            match lookup(store, args[1]) {
                Some(text) => say(store, privmsg(target, args[0] + ": "@ + text)),
                None => match sender {
                    SenderView::User(nick, _, _) => say(
                        store,
                        privmsg(target, nick + ": No such factoid: "@ + args[1]),
                    ),
                    _ => idle(store),
                },
            }
        } else {
            idle(store)
        }
    } else {
        match lookup(store, verb) {
            Some(text) => say(store, privmsg(target, text)),
            None => idle(store),
        }
    }
}

/// What a chat message does: nothing unless its second parameter invokes a
/// command; the first parameter is where the answer goes.
pub open spec fn on_privmsg(store: Seq<(Seq<char>, Seq<char>)>, trigger: char, m: MessageView) -> Step {
    if m.params.len() >= 2 {
        match invocation(m.params[1], trigger) {
            Some((verb, args)) => run(store, m.sender, m.params[0], verb, args),
            None => idle(store),
        }
    } else {
        idle(store)
    }
}

/// One join request per channel.
pub open spec fn joins(channels: Seq<Seq<char>>) -> Seq<ActionView> {
    Seq::new(channels.len(), |i: int| ActionView::Send("JOIN "@ + channels[i]))
}

/// What a parsed line does: `PING` is answered by the line itself with
/// `PONG` in place of `PING`, `001` by a join request for each channel, and
/// `PRIVMSG` as a chat message. Every other command is ignored.
pub open spec fn on_message(bot: BotView, line: Seq<char>, m: MessageView) -> Step {
    if m.command == "PING"@ {
        say(bot.factoids, replace(line, "PING"@, "PONG"@))
    } else if m.command == "001"@ {
        Step { store: bot.factoids, actions: joins(bot.channels) }
    } else if m.command == "PRIVMSG"@ {
        on_privmsg(bot.factoids, bot.trigger, m)
    } else {
        idle(bot.factoids)
    }
}

/// What a line does, if it is a message.
pub open spec fn on_line(bot: BotView, line: Seq<char>) -> Result<Step, ParseError> {
    match parse_line(line) {
        Ok(m) => Ok(on_message(bot, line, m)),
        Err(e) => Err(e),
    }
}

/// What a line does in a batch, where a line that is no message is passed
/// over and reported.
pub open spec fn settle(bot: BotView, line: Seq<char>) -> Step {
    match on_line(bot, line) {
        Ok(step) => step,
        Err(_) => Step { store: bot.factoids, actions: seq![ActionView::Skip(line)] },
    }
}

/// The bot with another store.
pub open spec fn with_store(bot: BotView, store: Seq<(Seq<char>, Seq<char>)>) -> BotView {
    BotView { factoids: store, ..bot }
}

/// What a batch of lines does: each line in turn, up to the first empty
/// line, which ends the batch.
pub open spec fn on_batch(bot: BotView, lines: Seq<Seq<char>>) -> Step
    decreases lines.len(),
{
    if lines.len() == 0 || lines[0].len() == 0 {
        idle(bot.factoids)
    } else {
        let first = settle(bot, lines[0]);
        let rest = on_batch(with_store(bot, first.store), lines.drop_first());
        Step { store: rest.store, actions: first.actions + rest.actions }
    }
}

/// The lines that register a nickname with the server.
pub open spec fn registration_of(nickname: Seq<char>) -> Seq<ActionView> {
    seq![
        ActionView::Send("NICK "@ + nickname),
        ActionView::Send("USER "@ + nickname + " * * :"@ + nickname),
    ]
}

fn privmsg_line(target: &str, text: &str) -> (out: String)
    ensures
        out@ == privmsg(target@, text@),
{
    let mut out = String::from_str("PRIVMSG ");
    out.append(target);
    out.append(" :");
    out.append(text);
    out
}

/// `head`, then `mid`, then `tail`.
fn concat3(head: &str, mid: &str, tail: &str) -> (out: String)
    ensures
        out@ == head@ + mid@ + tail@,
{
    let mut out = String::from_str(head);
    out.append(mid);
    out.append(tail);
    out
}

fn only(action: Action) -> (actions: Vec<Action>)
    ensures
        actions.deep_view() == seq![action@],
{
    let mut actions: Vec<Action> = Vec::new();
    actions.push(action);
    assert(actions.deep_view() =~= seq![action@]);
    actions
}

fn nothing() -> (actions: Vec<Action>)
    ensures
        actions.deep_view() == Seq::<ActionView>::empty(),
{
    let actions: Vec<Action> = Vec::new();
    assert(actions.deep_view() =~= Seq::<ActionView>::empty());
    actions
}

/// The bot: its name, the channels it joins, the character that marks a
/// command, and its factoids.
pub struct OxygenBot {
    nickname: String,
    channels: Vec<String>,
    trigger: char,
    factoids: Factoids,
}

impl View for OxygenBot {
    type V = BotView;

    closed spec fn view(&self) -> BotView {
        BotView {
            nickname: self.nickname@,
            channels: self.channels.deep_view(),
            trigger: self.trigger,
            factoids: self.factoids@,
        }
    }
}

impl OxygenBot {
    /// A bot whose commands are marked by `$`.
    pub fn new(nickname: String, channels: Vec<String>, factoids: Factoids) -> (bot: OxygenBot)
        ensures
            bot@ == (BotView {
                nickname: nickname@,
                channels: channels.deep_view(),
                trigger: '$',
                factoids: factoids@,
            }),
    {
        OxygenBot { nickname, channels, trigger: '$', factoids }
    }

    /// The lines that register the bot with the server.
    pub fn registration(&self) -> (actions: Vec<Action>)
        ensures
            actions.deep_view() == registration_of(self@.nickname),
    {
        let nick = self.nickname.as_str();
        let mut user = concat3("USER ", nick, " * * :");
        user.append(nick);
        let mut actions: Vec<Action> = Vec::new();
        actions.push(Action::Send(concat3("NICK ", nick, "")));
        actions.push(Action::Send(user));
        proof {
            reveal_strlit("");
            assert("NICK "@ + nick@ + ""@ =~= "NICK "@ + nick@);
            assert(actions.deep_view() =~= registration_of(self@.nickname));
        }
        actions
    }

    /// Carries out a command.
    pub fn run_command(&mut self, sender: &Sender, target: &str, verb: &str, args: &Vec<String>) -> (actions:
        Vec<Action>)
        ensures
            final(self)@ == with_store(
                old(self)@,
                run(old(self)@.factoids, sender@, target@, verb@, args.deep_view()).store,
            ),
            actions.deep_view() == run(
                old(self)@.factoids,
                sender@,
                target@,
                verb@,
                args.deep_view(),
            ).actions,
    {
        if same_text(verb, "defact") {
            if args.len() >= 2 {
                let name = args[0].clone();
                let contents = join_from(args, 1, " ");
                let mut actions: Vec<Action> = Vec::new();
                match sender {
                    Sender::User(nick, _, _) => {
                        let text = concat3(nick.as_str(), ": defined ", name.as_str());
                        actions.push(Action::Send(privmsg_line(target, text.as_str())));
                    },
                    _ => {},
                }
                let ghost replies = actions.deep_view();
                self.factoids.define_factoid(name, contents);
                let saved = self.factoids.serialize();
                actions.push(Action::Save(saved));
                proof {
                    assert(actions.deep_view() =~= replies + seq![ActionView::Save(saved@)]);
                    match sender@ {
                        SenderView::User(nick, _, _) => {
                            assert(replies =~= seq![
                                ActionView::Send(
                                    privmsg(target@, nick + ": defined "@ + args.deep_view()[0]),
                                ),
                            ]);
                        },
                        _ => {
                            assert(replies =~= Seq::<ActionView>::empty());
                        },
                    }
                }
                actions
            } else {
                nothing()
            }
        } else if same_text(verb, "factoids") {
            let names = self.factoids.names();
            let list = join_from(&names, 0, " ");
            assert(names.deep_view().skip(0) =~= names.deep_view());
            match sender {
                Sender::User(nick, _, _) => {
                    let text = concat3(nick.as_str(), ": ", list.as_str());
                    only(Action::Send(privmsg_line(target, text.as_str())))
                },
                _ => only(Action::Send(privmsg_line(target, list.as_str()))),
            }
        } else if same_text(verb, "at") {
            if args.len() >= 2 {
                match self.factoids.get(args[1].as_str()) {
                    Some(value) => {
                        let text = concat3(args[0].as_str(), ": ", value.as_str());
                        only(Action::Send(privmsg_line(target, text.as_str())))
                    },
                    None => match sender {
                        Sender::User(nick, _, _) => {
                            let text = concat3(
                                nick.as_str(),
                                ": No such factoid: ",
                                args[1].as_str(),
                            );
                            only(Action::Send(privmsg_line(target, text.as_str())))
                        },
                        _ => nothing(),
                    },
                }
            } else {
                nothing()
            }
        } else {
            match self.factoids.get(verb) {
                Some(value) => only(Action::Send(privmsg_line(target, value.as_str()))),
                None => nothing(),
            }
        }
    }

    /// Answers a chat message.
    pub fn handle_privmsg(&mut self, message: IrcMessage) -> (actions: Vec<Action>)
        ensures
            final(self)@ == with_store(
                old(self)@,
                on_privmsg(old(self)@.factoids, old(self)@.trigger, message@).store,
            ),
            actions.deep_view() == on_privmsg(
                old(self)@.factoids,
                old(self)@.trigger,
                message@,
            ).actions,
    {
        if message.params.len() < 2 {
            return nothing();
        }
        let body = chars_of(message.params[1].as_str());
        let n = body.len();
        assert(message@.params[1] == body@);
        if n == 0 || body[0] != self.trigger {
            return nothing();
        }
        let sp = find(&body, 1, n, CharClass::Exactly(' '));
        let verb = string_of(&body, 1, sp);
        let args = split_words_in(&body, sp, n);
        proof {
            let text = body@.drop_first();
            assert(text =~= body@.subrange(1, n as int));
            assert(text.take(sp - 1) =~= body@.subrange(1, sp as int));
            assert(text.skip(sp - 1) =~= body@.subrange(sp as int, n as int));
        }
        self.run_command(&message.sender, message.params[0].as_str(), verb.as_str(), &args)
    }

    /// Answers one line.
    pub fn handle_line(&mut self, line: &str) -> (r: Result<Vec<Action>, ParseError>)
        ensures
            match r {
                Ok(actions) => on_line(old(self)@, line@) matches Ok(step) && final(self)@
                    == with_store(old(self)@, step.store) && actions.deep_view() == step.actions,
                Err(e) => on_line(old(self)@, line@) == Err::<Step, ParseError>(e) && final(self)@
                    == old(self)@,
            },
    {
        let message = match IrcMessage::new(line) {
            Ok(m) => m,
            Err(e) => {
                return Err(e);
            },
        };
        if same_text(message.command.as_str(), "PING") {
            Ok(only(Action::Send(replace_all(line, "PING", "PONG"))))
        } else if same_text(message.command.as_str(), "001") {
            let mut actions: Vec<Action> = Vec::new();
            let mut k: usize = 0;
            assert(actions.deep_view() =~= joins(self@.channels).take(0));
            while k < self.channels.len()
                invariant
                    k <= self.channels.len(),
                    actions.deep_view() == joins(self@.channels).take(k as int),
                decreases self.channels.len() - k,
            {
                let ghost before = actions.deep_view();
                let join = concat3("JOIN ", self.channels[k].as_str(), "");
                proof {
                    reveal_strlit("");
                    assert(join@ =~= "JOIN "@ + self@.channels[k as int]);
                }
                actions.push(Action::Send(join));
                proof {
                    assert(actions.deep_view() =~= before.push(ActionView::Send(join@)));
                    assert(joins(self@.channels).take(k + 1) =~= before.push(
                        ActionView::Send(join@),
                    ));
                }
                k += 1;
            }
            assert(joins(self@.channels).take(self.channels.len() as int) =~= joins(
                self@.channels,
            ));
            Ok(actions)
        } else if same_text(message.command.as_str(), "PRIVMSG") {
            Ok(self.handle_privmsg(message))
        } else {
            Ok(nothing())
        }
    }

    /// Answers a batch of lines, each in turn, up to the first empty line.
    /// A line that is no message is passed over and reported.
    pub fn handle_batch(&mut self, lines: &Vec<String>) -> (actions: Vec<Action>)
        ensures
            final(self)@ == with_store(
                old(self)@,
                on_batch(old(self)@, lines.deep_view()).store,
            ),
            actions.deep_view() == on_batch(old(self)@, lines.deep_view()).actions,
    {
        let ghost start = self@;
        let ghost all = lines.deep_view();
        let mut actions: Vec<Action> = Vec::new();
        let mut k: usize = 0;
        proof {
            assert(all.skip(0) =~= all);
            assert(actions.deep_view() + on_batch(start, all).actions =~= on_batch(
                start,
                all,
            ).actions);
        }
        loop
            invariant_except_break
                on_batch(start, all).store == on_batch(self@, all.skip(k as int)).store,
                on_batch(start, all).actions == actions.deep_view() + on_batch(
                    self@,
                    all.skip(k as int),
                ).actions,
            invariant
                k <= lines.len(),
                all == lines.deep_view(),
                self@ == with_store(start, self@.factoids),
            ensures
                self@ == with_store(start, on_batch(start, all).store),
                actions.deep_view() == on_batch(start, all).actions,
            decreases lines.len() - k,
        {
            let ghost rest = all.skip(k as int);
            let ghost before = actions.deep_view();
            let ghost bot = self@;
            if k >= lines.len() || lines[k].as_str().is_empty() {
                proof {
                    if k < lines.len() {
                        assert(rest[0] == lines[k as int]@);
                    }
                    assert(before + Seq::<ActionView>::empty() =~= before);
                }
                break ;
            }
            proof {
                assert(rest[0] == lines[k as int]@);
                assert(rest.drop_first() =~= all.skip(k + 1));
            }
            match self.handle_line(lines[k].as_str()) {
                Ok(mut more) => {
                    let ghost added = more.deep_view();
                    actions.append(&mut more);
                    assert(actions.deep_view() =~= before + added);
                },
                Err(_) => {
                    actions.push(Action::Skip(lines[k].clone()));
                    assert(actions.deep_view() =~= before + seq![ActionView::Skip(rest[0])]);
                },
            }
            proof {
                let first = settle(bot, rest[0]);
                let after = on_batch(with_store(bot, first.store), all.skip(k + 1));
                assert(with_store(bot, first.store) == self@);
                assert(before + (first.actions + after.actions) =~= (before + first.actions)
                    + after.actions);
            }
            k += 1;
        }
        actions
    }

    /// The same bot with another character to mark its commands.
    pub fn with_trigger(self, trigger: char) -> (bot: OxygenBot)
        ensures
            bot@ == (BotView { trigger, ..self@ }),
    {
        OxygenBot {
            nickname: self.nickname,
            channels: self.channels,
            trigger,
            factoids: self.factoids,
        }
    }

    /// The bot's nickname.
    pub fn nickname(&self) -> (nickname: &String)
        ensures
            nickname@ == self@.nickname,
    {
        &self.nickname
    }

    /// The channels the bot joins.
    pub fn channels(&self) -> (channels: &Vec<String>)
        ensures
            channels.deep_view() == self@.channels,
    {
        &self.channels
    }

    /// The character that marks a command.
    pub fn trigger(&self) -> (trigger: char)
        ensures
            trigger == self@.trigger,
    {
        self.trigger
    }

    /// The factoid store.
    pub fn factoids(&self) -> (store: &Factoids)
        ensures
            store@ == self@.factoids,
    {
        &self.factoids
    }
}

} // verus!
