use oxygen_bot::bot::{Action, OxygenBot};
use oxygen_bot::factoids::Factoids;
use oxygen_bot::message::{IrcMessage, ParseError, Sender};

fn bot() -> OxygenBot {
    OxygenBot::new(
        "oxy".to_string(),
        vec!["#a".to_string(), "#b".to_string()],
        Factoids::new(),
    )
}

fn bot_with_joke() -> OxygenBot {
    let mut store = Factoids::new();
    store.define_factoid("joke".to_string(), "why did the chicken cross the road".to_string());
    OxygenBot::new("oxy".to_string(), vec!["#a".to_string()], store)
}

fn send(line: &str) -> Action {
    Action::Send(line.to_string())
}

fn save(contents: &str) -> Action {
    Action::Save(contents.to_string())
}

#[test]
fn registration_lines() {
    assert_eq!(bot().registration(), vec![send("NICK oxy"), send("USER oxy * * :oxy")]);
}

#[test]
fn ping_is_answered_with_pong() {
    let mut b = bot();
    assert_eq!(b.handle_line("PING :token"), Ok(vec![send("PONG :token")]));
}

#[test]
fn pong_replaces_every_ping_in_the_line() {
    let mut b = bot();
    assert_eq!(b.handle_line("PING :PING x"), Ok(vec![send("PONG :PONG x")]));
    assert_eq!(b.handle_line(":srv PING oxy"), Ok(vec![send(":srv PONG oxy")]));
}

#[test]
fn welcome_is_answered_with_joins() {
    let mut b = bot();
    assert_eq!(
        b.handle_line(":server.example 001 oxy :Welcome"),
        Ok(vec![send("JOIN #a"), send("JOIN #b")])
    );
}

#[test]
fn welcome_without_channels_sends_nothing() {
    let mut b = OxygenBot::new("oxy".to_string(), Vec::new(), Factoids::new());
    assert_eq!(b.handle_line(":server.example 001 oxy :Welcome"), Ok(Vec::new()));
}

#[test]
fn other_commands_are_ignored() {
    let mut b = bot();
    assert_eq!(b.handle_line(":srv NOTICE * :hello"), Ok(Vec::new()));
    assert_eq!(b.handle_line(":srv 002 oxy :Your host"), Ok(Vec::new()));
    assert_eq!(b.handle_line("ping :token"), Ok(Vec::new()));
}

#[test]
fn a_line_that_is_no_message_is_an_error() {
    let mut b = bot();
    assert_eq!(b.handle_line("???"), Err(ParseError::Command));
    assert_eq!(b.handle_line(":nospace"), Err(ParseError::Prefix));
    assert_eq!(b.handle_line("PING:x"), Err(ParseError::Separator));
}

#[test]
fn defact_end_to_end() {
    let mut b = bot();
    let actions = b.handle_line(
        ":alice!a@h PRIVMSG #room :$defact joke why did the chicken cross the road",
    );
    assert_eq!(
        actions,
        Ok(vec![
            send("PRIVMSG #room :alice: defined joke"),
            save("joke why did the chicken cross the road"),
        ])
    );
    assert_eq!(
        b.factoids().get("joke"),
        Some(&"why did the chicken cross the road".to_string())
    );
    assert_eq!(b.factoids().len(), 1);
}

#[test]
fn defact_from_a_server_defines_without_confirming() {
    let mut b = bot();
    assert_eq!(
        b.handle_line(":srv PRIVMSG #room :$defact greet hello   world"),
        Ok(vec![save("greet hello world")])
    );
    assert_eq!(b.factoids().get("greet"), Some(&"hello world".to_string()));
}

#[test]
fn defact_with_one_parameter_does_nothing() {
    let mut b = bot_with_joke();
    assert_eq!(b.handle_line(":alice!a@h PRIVMSG #room :$defact onlyname"), Ok(Vec::new()));
    assert_eq!(b.handle_line(":alice!a@h PRIVMSG #room :$defact"), Ok(Vec::new()));
    assert_eq!(b.handle_line(":alice!a@h PRIVMSG #room :$defact   "), Ok(Vec::new()));
    assert_eq!(b.factoids().len(), 1);
    assert_eq!(b.factoids().get("onlyname"), None);
}

#[test]
fn short_defact_does_not_look_up_a_factoid_of_that_name() {
    let mut b = bot();
    b.handle_line(":alice!a@h PRIVMSG #room :$defact defact surprise").unwrap();
    assert_eq!(b.handle_line(":alice!a@h PRIVMSG #room :$defact"), Ok(Vec::new()));
}

#[test]
fn defact_overwrites() {
    let mut b = bot_with_joke();
    assert_eq!(
        b.handle_line(":alice!a@h PRIVMSG #room :$defact joke knock knock"),
        Ok(vec![send("PRIVMSG #room :alice: defined joke"), save("joke knock knock")])
    );
    assert_eq!(b.factoids().get("joke"), Some(&"knock knock".to_string()));
}

#[test]
fn direct_lookup() {
    let mut b = bot_with_joke();
    assert_eq!(
        b.handle_line(":alice!a@h PRIVMSG #room :$joke"),
        Ok(vec![send("PRIVMSG #room :why did the chicken cross the road")])
    );
    assert_eq!(
        b.handle_line(":srv PRIVMSG oxy :$joke with more words"),
        Ok(vec![send("PRIVMSG oxy :why did the chicken cross the road")])
    );
}

#[test]
fn lookup_of_an_absent_name_sends_nothing() {
    let mut b = bot_with_joke();
    assert_eq!(b.handle_line(":alice!a@h PRIVMSG #room :$nosuchname"), Ok(Vec::new()));
    assert_eq!(b.handle_line(":alice!a@h PRIVMSG #room :$"), Ok(Vec::new()));
    assert_eq!(b.factoids().len(), 1);
}

#[test]
fn at_sends_the_text_to_the_recipient() {
    let mut b = bot_with_joke();
    assert_eq!(
        b.handle_line(":alice!a@h PRIVMSG #room :$at bob joke"),
        Ok(vec![send("PRIVMSG #room :bob: why did the chicken cross the road")])
    );
    assert_eq!(
        b.handle_line(":srv PRIVMSG #room :$at bob joke"),
        Ok(vec![send("PRIVMSG #room :bob: why did the chicken cross the road")])
    );
}

#[test]
fn at_with_an_absent_name_tells_a_user_only() {
    let mut b = bot_with_joke();
    assert_eq!(
        b.handle_line(":alice!a@h PRIVMSG #room :$at bob nothing"),
        Ok(vec![send("PRIVMSG #room :alice: No such factoid: nothing")])
    );
    assert_eq!(b.handle_line(":srv PRIVMSG #room :$at bob nothing"), Ok(Vec::new()));
    let nobody = IrcMessage {
        sender: Sender::Nobody,
        command: "PRIVMSG".to_string(),
        params: vec!["#room".to_string(), "$at bob nothing".to_string()],
    };
    assert_eq!(b.handle_privmsg(nobody), Vec::new());
}

#[test]
fn at_with_one_parameter_does_nothing() {
    let mut b = bot_with_joke();
    assert_eq!(b.handle_line(":alice!a@h PRIVMSG #room :$at joke"), Ok(Vec::new()));
}

#[test]
fn factoids_lists_the_names() {
    let mut b = bot_with_joke();
    b.handle_line(":alice!a@h PRIVMSG #room :$defact greet hello").unwrap();
    assert_eq!(
        b.handle_line(":alice!a@h PRIVMSG #room :$factoids"),
        Ok(vec![send("PRIVMSG #room :alice: joke greet")])
    );
    assert_eq!(
        b.handle_line(":srv PRIVMSG #room :$factoids"),
        Ok(vec![send("PRIVMSG #room :joke greet")])
    );
}

#[test]
fn factoids_of_an_empty_store() {
    let mut b = bot();
    assert_eq!(
        b.handle_line(":alice!a@h PRIVMSG #room :$factoids"),
        Ok(vec![send("PRIVMSG #room :alice: ")])
    );
}

#[test]
fn message_without_the_trigger_is_ignored() {
    let mut b = bot_with_joke();
    assert_eq!(b.handle_line(":alice!a@h PRIVMSG #room :joke"), Ok(Vec::new()));
    assert_eq!(b.handle_line(":alice!a@h PRIVMSG #room :say $joke"), Ok(Vec::new()));
    assert_eq!(b.handle_line(":alice!a@h PRIVMSG #room :"), Ok(Vec::new()));
}

#[test]
fn message_with_fewer_than_two_parameters_is_ignored() {
    let mut b = bot_with_joke();
    assert_eq!(b.handle_line(":alice!a@h PRIVMSG $joke"), Ok(Vec::new()));
    assert_eq!(b.handle_line(":alice!a@h PRIVMSG"), Ok(Vec::new()));
}

#[test]
fn another_trigger() {
    let mut b = bot_with_joke().with_trigger('!');
    assert_eq!(b.trigger(), '!');
    assert_eq!(
        b.handle_line(":alice!a@h PRIVMSG #room :!joke"),
        Ok(vec![send("PRIVMSG #room :why did the chicken cross the road")])
    );
    assert_eq!(b.handle_line(":alice!a@h PRIVMSG #room :$joke"), Ok(Vec::new()));
}

#[test]
fn run_command_directly() {
    let mut b = bot();
    let alice = Sender::User("alice".to_string(), "a".to_string(), "h".to_string());
    let args = vec!["k".to_string(), "v".to_string(), "w".to_string()];
    assert_eq!(
        b.run_command(&alice, "#room", "defact", &args),
        vec![send("PRIVMSG #room :alice: defined k"), save("k v w")]
    );
    assert_eq!(b.run_command(&alice, "#room", "k", &Vec::new()), vec![send("PRIVMSG #room :v w")]);
}

#[test]
fn batch_stops_at_the_first_empty_line() {
    let mut b = bot();
    let lines = vec![
        "PING :a".to_string(),
        ":alice!a@h PRIVMSG #room :$defact k v".to_string(),
        "".to_string(),
        "PING :b".to_string(),
    ];
    assert_eq!(
        b.handle_batch(&lines),
        vec![send("PONG :a"), send("PRIVMSG #room :alice: defined k"), save("k v")]
    );
}

#[test]
fn batch_passes_over_what_is_no_message() {
    let mut b = bot();
    let lines = vec!["???".to_string(), "PING :a".to_string()];
    assert_eq!(b.handle_batch(&lines), vec![Action::Skip("???".to_string()), send("PONG :a")]);
}

#[test]
fn batch_sees_what_earlier_lines_defined() {
    let mut b = bot();
    let lines = vec![
        ":alice!a@h PRIVMSG #room :$defact k v".to_string(),
        ":bob!b@h PRIVMSG #room :$k".to_string(),
    ];
    assert_eq!(
        b.handle_batch(&lines),
        vec![
            send("PRIVMSG #room :alice: defined k"),
            save("k v"),
            send("PRIVMSG #room :v"),
        ]
    );
}

#[test]
fn empty_batch() {
    let mut b = bot();
    assert!(b.handle_batch(&Vec::new()).is_empty());
    assert!(b.handle_batch(&vec!["".to_string(), "PING :a".to_string()]).is_empty());
}

#[test]
fn getters() {
    let b = bot();
    assert_eq!(b.nickname(), "oxy");
    assert_eq!(b.channels(), &vec!["#a".to_string(), "#b".to_string()]);
    assert_eq!(b.trigger(), '$');
    assert_eq!(b.factoids().len(), 0);
}
