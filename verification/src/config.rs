//! The bot's settings, read from a TOML document.

use vstd::prelude::*;
use vstd::string::*;

verus! {

/// The settings a bot starts from.
#[derive(Debug, Clone, PartialEq, Eq)]
pub struct Config {
    pub nickname: String,
    pub channels: Vec<String>,
    pub host: String,
    pub port: u16,
}

/// The mathematical value of a [`Config`].
pub struct ConfigView {
    pub nickname: Seq<char>,
    pub channels: Seq<Seq<char>>,
    pub host: Seq<char>,
    pub port: u16,
}

impl View for Config {
    type V = ConfigView;

    open spec fn view(&self) -> ConfigView {
        ConfigView {
            nickname: self.nickname@,
            channels: self.channels.deep_view(),
            host: self.host@,
            port: self.port,
        }
    }
}

/// Why a document gives no settings.
#[derive(Debug, Clone, Copy, PartialEq, Eq, Structural)]
pub enum ConfigError {
    /// The text is not a TOML document.
    Syntax,
    /// `nickname` is missing or is not a string.
    Nickname,
    /// `channels` is missing or is not an array of strings.
    Channels,
    /// `host` is missing or is not a string.
    Host,
    /// `port` is missing, is not an integer, or is not in `0..=65535`.
    Port,
}

/// Whether `text` is a TOML document.
pub uninterp spec fn toml_is_document(text: Seq<char>) -> bool;

/// The string that the TOML document `text` holds under `key`, if `text` is a
/// document, has the key at its top level, and holds a string there.
pub uninterp spec fn toml_string(text: Seq<char>, key: Seq<char>) -> Option<Seq<char>>;

/// The strings that the TOML document `text` holds under `key`, if it holds
/// an array there and every element of the array is a string.
pub uninterp spec fn toml_strings(text: Seq<char>, key: Seq<char>) -> Option<Seq<Seq<char>>>;

/// The integer that the TOML document `text` holds under `key`, if it holds
/// an integer there.
pub uninterp spec fn toml_integer(text: Seq<char>, key: Seq<char>) -> Option<i64>;

/// `toml::Value::from_str`, through `str::parse`: whether it accepts the
/// text. The answer depends on the text alone.
#[verifier::external_body]
fn is_document(text: &str) -> (r: bool)
    ensures
        r == toml_is_document(text@),
{
    text.parse::<toml::Value>().is_ok()
}

/// `toml::Value::as_str` on what `toml::Value::get` finds under `key` in the
/// parsed text. The answer depends on the text and the key alone.
#[verifier::external_body]
fn string_at(text: &str, key: &str) -> (r: Option<String>)
    ensures
        match r {
            Some(s) => toml_string(text@, key@) == Some(s@),
            None => toml_string(text@, key@) is None,
        },
{
    text.parse::<toml::Value>().ok()?.get(key)?.as_str().map(String::from)
}

/// `toml::Value::as_array` on what `toml::Value::get` finds under `key` in
/// the parsed text, each element read with `toml::Value::as_str`. The answer
/// depends on the text and the key alone.
#[verifier::external_body]
fn strings_at(text: &str, key: &str) -> (r: Option<Vec<String>>)
    ensures
        match r {
            Some(v) => toml_strings(text@, key@) == Some(v.deep_view()),
            None => toml_strings(text@, key@) is None,
        },
{
    let doc = text.parse::<toml::Value>().ok()?;
    doc.get(key)?.as_array()?.iter().map(|v| v.as_str().map(String::from)).collect()
}

/// `toml::Value::as_integer` on what `toml::Value::get` finds under `key` in
/// the parsed text. The answer depends on the text and the key alone.
#[verifier::external_body]
fn integer_at(text: &str, key: &str) -> (r: Option<i64>)
    ensures
        r == toml_integer(text@, key@),
{
    text.parse::<toml::Value>().ok()?.get(key)?.as_integer()
}

/// The settings that the four values give, or the first thing that is wrong
/// with them, in the order document, nickname, channels, host, port.
pub open spec fn settings_of(
    is_document: bool,
    nickname: Option<Seq<char>>,
    channels: Option<Seq<Seq<char>>>,
    host: Option<Seq<char>>,
    port: Option<i64>,
) -> Result<ConfigView, ConfigError> {
    if !is_document {
        Err(ConfigError::Syntax)
    } else if nickname is None {
        Err(ConfigError::Nickname)
    } else if channels is None {
        Err(ConfigError::Channels)
    } else if host is None {
        Err(ConfigError::Host)
    } else if port is None || port->0 < 0 || port->0 > 65535 {
        Err(ConfigError::Port)
    } else {
        Ok(
            ConfigView {
                nickname: nickname->0,
                channels: channels->0,
                host: host->0,
                port: port->0 as u16,
            },
        )
    }
}

/// The value of an optional string.
pub open spec fn text_of(s: Option<String>) -> Option<Seq<char>> {
    match s {
        Some(s) => Some(s@),
        None => None,
    }
}

/// The value of an optional list of strings.
pub open spec fn texts_of(v: Option<Vec<String>>) -> Option<Seq<Seq<char>>> {
    match v {
        Some(v) => Some(v.deep_view()),
        None => None,
    }
}

impl ConfigError {
    /// What to tell the user.
    pub fn message(&self) -> (text: String)
        ensures
            text@ == match *self {
                ConfigError::Syntax => "Invalid configuration."@,
                ConfigError::Nickname => "Invalid nickname."@,
                ConfigError::Channels => "Invalid channels."@,
                ConfigError::Host => "Invalid host."@,
                ConfigError::Port => "Invalid port."@,
            },
    {
        match self {
            ConfigError::Syntax => String::from_str("Invalid configuration."),
            ConfigError::Nickname => String::from_str("Invalid nickname."),
            ConfigError::Channels => String::from_str("Invalid channels."),
            ConfigError::Host => String::from_str("Invalid host."),
            ConfigError::Port => String::from_str("Invalid port."),
        }
    }
}

impl Config {
    /// The settings made of four values read from a document.
    pub fn from_fields(
        is_document: bool,
        nickname: Option<String>,
        channels: Option<Vec<String>>,
        host: Option<String>,
        port: Option<i64>,
    ) -> (r: Result<Config, ConfigError>)
        ensures
            match r {
                Ok(config) => settings_of(
                    is_document,
                    text_of(nickname),
                    texts_of(channels),
                    text_of(host),
                    port,
                ) == Ok::<ConfigView, ConfigError>(config@),
                Err(e) => settings_of(
                    is_document,
                    text_of(nickname),
                    texts_of(channels),
                    text_of(host),
                    port,
                ) == Err::<ConfigView, ConfigError>(e),
            },
    {
        if !is_document {
            return Err(ConfigError::Syntax);
        }
        let nickname = match nickname {
            Some(s) => s,
            None => {
                return Err(ConfigError::Nickname);
            },
        };
        let channels = match channels {
            Some(v) => v,
            None => {
                return Err(ConfigError::Channels);
            },
        };
        let host = match host {
            Some(s) => s,
            None => {
                return Err(ConfigError::Host);
            },
        };
        match port {
            Some(n) => {
                if n < 0 || n > 65535 {
                    Err(ConfigError::Port)
                } else {
                    Ok(Config { nickname, channels, host, port: n as u16 })
                }
            },
            None => Err(ConfigError::Port),
        }
    }

    /// The settings that a TOML document holds under `nickname`, `channels`,
    /// `host` and `port`.
    pub fn from_toml(text: &str) -> (r: Result<Config, ConfigError>)
        ensures
            match r {
                Ok(config) => settings_of(
                    toml_is_document(text@),
                    toml_string(text@, "nickname"@),
                    toml_strings(text@, "channels"@),
                    toml_string(text@, "host"@),
                    toml_integer(text@, "port"@),
                ) == Ok::<ConfigView, ConfigError>(config@),
                Err(e) => settings_of(
                    toml_is_document(text@),
                    toml_string(text@, "nickname"@),
                    toml_strings(text@, "channels"@),
                    toml_string(text@, "host"@),
                    toml_integer(text@, "port"@),
                ) == Err::<ConfigView, ConfigError>(e),
            },
    {
        Config::from_fields(
            is_document(text),
            string_at(text, "nickname"),
            strings_at(text, "channels"),
            string_at(text, "host"),
            integer_at(text, "port"),
        )
    }
}

} // verus!
