use oxygen_bot::message::{IrcMessage, ParseError, Sender};
use regex::Regex;

fn strings(items: &[&str]) -> Vec<String> {
    items.iter().map(|s| s.to_string()).collect()
}

fn user(nick: &str, name: &str, host: &str) -> Sender {
    Sender::User(nick.to_string(), name.to_string(), host.to_string())
}

fn parsed(line: &str) -> IrcMessage {
    match IrcMessage::new(line) {
        Ok(m) => m,
        Err(e) => panic!("{:?} on {:?}", e, line),
    }
}

#[test]
fn user_line_with_trailing_parameter() {
    let m = parsed(":nick!user@host COMMAND p1 p2 :trailing text");
    assert_eq!(m.sender, user("nick", "user", "host"));
    assert_eq!(m.command, "COMMAND");
    assert_eq!(m.params, strings(&["p1", "p2", "trailing text"]));
}

#[test]
fn line_without_prefix_comes_from_nobody() {
    let m = parsed("PING :server.example");
    assert_eq!(m.sender, Sender::Nobody);
    assert_eq!(m.command, "PING");
    assert_eq!(m.params, strings(&["server.example"]));
}

#[test]
fn server_prefix() {
    let m = parsed(":server.example 001 nick :Welcome");
    assert_eq!(m.sender, Sender::Server("server.example".to_string()));
    assert_eq!(m.command, "001");
    assert_eq!(m.params, strings(&["nick", "Welcome"]));
}

#[test]
fn command_alone_has_no_parameters() {
    let m = parsed("PING");
    assert_eq!(m.sender, Sender::Nobody);
    assert_eq!(m.command, "PING");
    assert!(m.params.is_empty());
}

#[test]
fn command_with_a_bare_space_has_no_parameters() {
    let m = parsed("QUIT ");
    assert_eq!(m.command, "QUIT");
    assert!(m.params.is_empty());
}

#[test]
fn middle_parameters_only() {
    let m = parsed(":a!b@c MODE #chan +o someone");
    assert_eq!(m.params, strings(&["#chan", "+o", "someone"]));
}

#[test]
fn trailing_parameter_may_be_empty() {
    let m = parsed("PRIVMSG #c :");
    assert_eq!(m.params, strings(&["#c", ""]));
}

#[test]
fn trailing_parameter_is_rejoined_with_single_spaces() {
    let m = parsed("PRIVMSG #c :a   b \t c  ");
    assert_eq!(m.params, strings(&["#c", "a b c"]));
}

#[test]
fn trailing_parameter_keeps_later_colons() {
    let m = parsed("PRIVMSG #c ::) :x y:");
    assert_eq!(m.params, strings(&["#c", ":) :x y:"]));
}

#[test]
fn colon_inside_a_word_does_not_start_the_trailing_parameter() {
    let m = parsed("PRIVMSG a:b c");
    assert_eq!(m.params, strings(&["a:b", "c"]));
}

#[test]
fn nickname_may_hold_an_at_sign_and_host_a_bang() {
    let m = parsed(":n@x!u!v@h!@w CMD");
    assert_eq!(m.sender, user("n@x", "u!v", "h!@w"));
}

#[test]
fn unicode_in_parameters() {
    let m = parsed(":zoë!z@h PRIVMSG #café :naïve \u{3000}text");
    assert_eq!(m.sender, user("zoë", "z", "h"));
    assert_eq!(m.params, strings(&["#café", "naïve text"]));
}

#[test]
fn prefix_without_space_is_rejected() {
    assert_eq!(IrcMessage::new(":nospace"), Err(ParseError::Prefix));
}

#[test]
fn empty_prefix_is_rejected() {
    assert_eq!(IrcMessage::new(": PING"), Err(ParseError::Prefix));
}

#[test]
fn broken_user_prefix_is_rejected() {
    assert_eq!(IrcMessage::new(":a!b PING"), Err(ParseError::Prefix));
    assert_eq!(IrcMessage::new(":!b@c PING"), Err(ParseError::Prefix));
    assert_eq!(IrcMessage::new(":a!@c PING"), Err(ParseError::Prefix));
    assert_eq!(IrcMessage::new(":a!b@ PING"), Err(ParseError::Prefix));
    assert_eq!(IrcMessage::new(":a!b@h\tx PING"), Err(ParseError::Prefix));
}

#[test]
fn prefix_is_judged_before_the_command() {
    assert_eq!(IrcMessage::new(":a!b ???"), Err(ParseError::Prefix));
}

#[test]
fn missing_command_is_rejected() {
    assert_eq!(IrcMessage::new(""), Err(ParseError::Command));
    assert_eq!(IrcMessage::new(" PING"), Err(ParseError::Command));
    assert_eq!(IrcMessage::new("???"), Err(ParseError::Command));
    assert_eq!(IrcMessage::new(":srv  PING"), Err(ParseError::Command));
    assert_eq!(IrcMessage::new(":srv "), Err(ParseError::Command));
}

#[test]
fn command_must_be_followed_by_a_space() {
    assert_eq!(IrcMessage::new("PING:x"), Err(ParseError::Separator));
    assert_eq!(IrcMessage::new("PING\tx"), Err(ParseError::Separator));
    assert_eq!(IrcMessage::new("PÏNG x"), Err(ParseError::Separator));
}

#[test]
fn split_params_plain_words() {
    assert_eq!(IrcMessage::split_params("a b  c".to_string()), strings(&["a", "b", "c"]));
}

#[test]
fn split_params_trailing() {
    assert_eq!(
        IrcMessage::split_params("#room :hello  there world".to_string()),
        strings(&["#room", "hello there world"])
    );
}

#[test]
fn split_params_only_a_colon() {
    assert_eq!(IrcMessage::split_params(":".to_string()), strings(&[""]));
}

#[test]
fn split_params_colon_then_words() {
    assert_eq!(IrcMessage::split_params(": a b".to_string()), strings(&[" a b"]));
}

#[test]
fn split_params_of_nothing() {
    assert!(IrcMessage::split_params("".to_string()).is_empty());
    assert!(IrcMessage::split_params(" \t ".to_string()).is_empty());
}

fn by_pattern(line: &str) -> (Sender, String, Vec<String>) {
    let pattern = Regex::new(r"^(:([^! ]+)(?:!([^@]+)@(\S+))? )?(\w+)(?: (.+))?$").unwrap();
    let found = pattern.captures(line).unwrap();
    let text = |n: usize| found.get(n).unwrap().as_str().to_string();
    let sender = if found.get(1).is_none() {
        Sender::Nobody
    } else if found.get(3).is_some() {
        Sender::User(text(2), text(3), text(4))
    } else {
        Sender::Server(text(2))
    };
    let params = match found.get(6) {
        Some(section) => IrcMessage::split_params(section.as_str().to_string()),
        None => Vec::new(),
    };
    (sender, text(5), params)
}

#[test]
fn parser_agrees_with_the_grammar_as_a_pattern() {
    let lines = [
        ":nick!user@host COMMAND p1 p2 :trailing text",
        "PING :server.example",
        ":server.example 001 nick :Welcome",
        ":alice!a@h PRIVMSG #room :$defact joke why did the chicken cross the road",
        "PING",
        ":irc.example.net NOTICE * :*** Looking up your hostname...",
        ":bob!~bob@10.0.0.1 JOIN #room",
        ":n@x!u!v@h!@w CMD",
        ":srv 353 oxy = #room :oxy @alice +bob",
        "ERROR :Closing Link: (timeout)",
        ":a!b@c PRIVMSG oxy ::)",
    ];
    for line in lines {
        let m = parsed(line);
        let (sender, command, params) = by_pattern(line);
        assert_eq!(m.sender, sender, "{}", line);
        assert_eq!(m.command, command, "{}", line);
        assert_eq!(m.params, params, "{}", line);
    }
}
