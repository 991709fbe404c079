use oxygen_bot::config::{Config, ConfigError};

const GOOD: &str = "nickname = \"oxy\"\nchannels = [\"#a\", \"#b\"]\nhost = \"irc.example.org\"\nport = 6667\n";

#[test]
fn settings_from_a_document() {
    let config = Config::from_toml(GOOD).unwrap();
    assert_eq!(config.nickname, "oxy");
    assert_eq!(config.channels, vec!["#a".to_string(), "#b".to_string()]);
    assert_eq!(config.host, "irc.example.org");
    assert_eq!(config.port, 6667);
}

#[test]
fn other_keys_are_ignored() {
    let text = format!("{}extra = true\n[table]\nnickname = \"inner\"\n", GOOD);
    assert_eq!(Config::from_toml(&text).unwrap().nickname, "oxy");
}

#[test]
fn no_channels() {
    let text = "nickname = \"oxy\"\nchannels = []\nhost = \"h\"\nport = 1\n";
    assert!(Config::from_toml(text).unwrap().channels.is_empty());
}

#[test]
fn text_that_is_no_document() {
    assert_eq!(Config::from_toml("nickname = "), Err(ConfigError::Syntax));
    assert_eq!(Config::from_toml("[unclosed"), Err(ConfigError::Syntax));
}

#[test]
fn nickname_missing_or_no_string() {
    assert_eq!(Config::from_toml(""), Err(ConfigError::Nickname));
    assert_eq!(
        Config::from_toml("nickname = 5\nchannels = []\nhost = \"h\"\nport = 1\n"),
        Err(ConfigError::Nickname)
    );
}

#[test]
fn channels_missing_or_no_array_of_strings() {
    assert_eq!(
        Config::from_toml("nickname = \"n\"\nhost = \"h\"\nport = 1\n"),
        Err(ConfigError::Channels)
    );
    assert_eq!(
        Config::from_toml("nickname = \"n\"\nchannels = \"#a\"\nhost = \"h\"\nport = 1\n"),
        Err(ConfigError::Channels)
    );
    assert_eq!(
        Config::from_toml("nickname = \"n\"\nchannels = [\"#a\", 1]\nhost = \"h\"\nport = 1\n"),
        Err(ConfigError::Channels)
    );
}

#[test]
fn host_missing_or_no_string() {
    assert_eq!(
        Config::from_toml("nickname = \"n\"\nchannels = []\nport = 1\n"),
        Err(ConfigError::Host)
    );
    assert_eq!(
        Config::from_toml("nickname = \"n\"\nchannels = []\nhost = 1\nport = 1\n"),
        Err(ConfigError::Host)
    );
}

#[test]
fn port_missing_or_no_integer_or_out_of_range() {
    assert_eq!(
        Config::from_toml("nickname = \"n\"\nchannels = []\nhost = \"h\"\n"),
        Err(ConfigError::Port)
    );
    assert_eq!(
        Config::from_toml("nickname = \"n\"\nchannels = []\nhost = \"h\"\nport = \"6667\"\n"),
        Err(ConfigError::Port)
    );
    assert_eq!(
        Config::from_toml("nickname = \"n\"\nchannels = []\nhost = \"h\"\nport = 65536\n"),
        Err(ConfigError::Port)
    );
    assert_eq!(
        Config::from_toml("nickname = \"n\"\nchannels = []\nhost = \"h\"\nport = -1\n"),
        Err(ConfigError::Port)
    );
}

#[test]
fn port_at_the_ends_of_the_range() {
    let low = Config::from_toml("nickname = \"n\"\nchannels = []\nhost = \"h\"\nport = 0\n");
    assert_eq!(low.unwrap().port, 0);
    let high = Config::from_toml("nickname = \"n\"\nchannels = []\nhost = \"h\"\nport = 65535\n");
    assert_eq!(high.unwrap().port, 65535);
}

#[test]
fn first_fault_is_reported() {
    assert_eq!(
        Config::from_fields(false, None, None, None, None),
        Err(ConfigError::Syntax)
    );
    assert_eq!(Config::from_fields(true, None, None, None, None), Err(ConfigError::Nickname));
    assert_eq!(
        Config::from_fields(true, Some("n".to_string()), None, None, None),
        Err(ConfigError::Channels)
    );
    assert_eq!(
        Config::from_fields(true, Some("n".to_string()), Some(Vec::new()), None, Some(70000)),
        Err(ConfigError::Host)
    );
    assert_eq!(
        Config::from_fields(
            true,
            Some("n".to_string()),
            Some(Vec::new()),
            Some("h".to_string()),
            Some(70000)
        ),
        Err(ConfigError::Port)
    );
}

#[test]
fn settings_from_values() {
    let config = Config::from_fields(
        true,
        Some("n".to_string()),
        Some(vec!["#c".to_string()]),
        Some("h".to_string()),
        Some(6697),
    );
    assert_eq!(
        config,
        Ok(Config {
            nickname: "n".to_string(),
            channels: vec!["#c".to_string()],
            host: "h".to_string(),
            port: 6697,
        })
    );
}

#[test]
fn messages() {
    assert_eq!(ConfigError::Syntax.message(), "Invalid configuration.");
    assert_eq!(ConfigError::Nickname.message(), "Invalid nickname.");
    assert_eq!(ConfigError::Channels.message(), "Invalid channels.");
    assert_eq!(ConfigError::Host.message(), "Invalid host.");
    assert_eq!(ConfigError::Port.message(), "Invalid port.");
}
