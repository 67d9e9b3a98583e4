//! The bot's configuration and where it comes from.
use vstd::prelude::*;

verus! {

/// The section of the configuration file that holds the bot's settings.
pub const MAIN_SECTION: &'static str = "Main";

/// The key of the bot's name.
pub const MAIN_NAME_FIELD: &'static str = "Name";

/// The key of the bot's token.
pub const MAIN_TOKEN_FIELD: &'static str = "Token";

/// The file that keeps the session record.
pub const BOT_STORE_FILE_PATH: &'static str = "__bot.json";

/// What the operator configures: the bot's name and its token.
#[derive(Debug, Default)]
pub struct Config {
    pub name: String,
    pub token: String,
}

/// What the session needs of the configuration.
#[derive(Debug)]
pub struct BotConfig {
    pub token: String,
    pub store_path: String,
}

/// `tini::Ini`, a parsed INI document; the verifier sees nothing inside.
#[verifier::external_type_specification]
#[verifier::external_body]
pub struct ExIni(tini::Ini);

/// `tini::Error`, why a text is no INI document; the verifier sees nothing
/// inside.
#[verifier::external_type_specification]
#[verifier::external_body]
pub struct ExIniError(tini::Error);

/// Why no configuration came out.
#[derive(Debug)]
pub enum ConfigError {
    /// Neither a token nor a configuration file was given.
    Missing,
    /// The configuration file is no INI text.
    Syntax(tini::Error),
    /// The configuration file lacks the name or the token.
    Incomplete,
}

/// What an INI text holds: the value of each key of each section; `None`
/// where the text is rejected.
pub uninterp spec fn ini_parse(text: Seq<char>) -> Option<
    Map<(Seq<char>, Seq<char>), Seq<char>>,
>;

/// The value of each key of each section of a parsed INI document.
pub uninterp spec fn ini_entries(ini: tini::Ini) -> Map<(Seq<char>, Seq<char>), Seq<char>>;

/// Parses an INI text.
///
/// Trusted: calls `tini::Ini::from_string`; the document that comes back
/// holds `ini_parse` of the text, and an error comes back exactly where
/// `ini_parse` is `None`.
#[verifier::external_body]
fn parse_ini(text: &str) -> (r: Result<tini::Ini, tini::Error>)
    ensures
        r is Ok <==> ini_parse(text@) is Some,
        r matches Ok(ini) ==> ini_parse(text@) == Some(ini_entries(ini)),
{
    tini::Ini::from_string(text)
}

/// Looks a key up in a section of a parsed INI document.
///
/// Trusted: calls `tini::Ini::get` for a `String`; it returns the value
/// that the document holds under the section and key, `None` where it
/// holds none.
#[verifier::external_body]
fn ini_get(ini: &tini::Ini, section: &str, key: &str) -> (r: Option<String>)
    ensures
        r is Some <==> ini_entries(*ini).contains_key((section@, key@)),
        r matches Some(v) ==> ini_entries(*ini)[(section@, key@)] == v@,
{
    ini.get::<String>(section, key)
}

impl Config {
    /// The session's share of this configuration: the token, and the
    /// default place of the session record.
    pub fn bot_conf(&self) -> (r: BotConfig)
        ensures
            r.token@ == self.token@,
            r.store_path@ == BOT_STORE_FILE_PATH@,
    {
        BotConfig::new(self.token.clone(), BOT_STORE_FILE_PATH.to_owned())
    }

    /// What `entries` gives for a configuration: the name and the token of
    /// the main section, where both are there.
    pub open spec fn of_entries(entries: Map<(Seq<char>, Seq<char>), Seq<char>>) -> Option<
        (Seq<char>, Seq<char>),
    > {
        if entries.contains_key((MAIN_SECTION@, MAIN_NAME_FIELD@)) && entries.contains_key(
            (MAIN_SECTION@, MAIN_TOKEN_FIELD@),
        ) {
            Some(
                (
                    entries[(MAIN_SECTION@, MAIN_NAME_FIELD@)],
                    entries[(MAIN_SECTION@, MAIN_TOKEN_FIELD@)],
                ),
            )
        } else {
            None
        }
    }

    /// The configuration that a parsed document holds.
    pub fn from_document(ini: &tini::Ini) -> (r: Result<Config, ConfigError>)
        ensures
            match Config::of_entries(ini_entries(*ini)) {
                Some((name, token)) => r matches Ok(c) && c.name@ == name && c.token@ == token,
                None => r matches Err(ConfigError::Incomplete),
            },
    {
        let name = match ini_get(ini, MAIN_SECTION, MAIN_NAME_FIELD) {
            Some(n) => n,
            None => {
                return Err(ConfigError::Incomplete);
            },
        };
        let token = match ini_get(ini, MAIN_SECTION, MAIN_TOKEN_FIELD) {
            Some(t) => t,
            None => {
                return Err(ConfigError::Incomplete);
            },
        };
        Ok(Config { name, token })
    }

    /// The configuration that the text of a configuration file holds.
    pub fn from_ini(text: &str) -> (r: Result<Config, ConfigError>)
        ensures
            match ini_parse(text@) {
                None => r matches Err(ConfigError::Syntax(_)),
                Some(entries) => match Config::of_entries(entries) {
                    Some((name, token)) => r matches Ok(c) && c.name@ == name && c.token@
                        == token,
                    None => r matches Err(ConfigError::Incomplete),
                },
            },
    {
        match parse_ini(text) {
            Ok(ini) => Config::from_document(&ini),
            Err(e) => Err(ConfigError::Syntax(e)),
        }
    }
}

impl BotConfig {
    /// The session's configuration: the token and the place of the session
    /// record.
    pub fn new(token: String, store_path: String) -> (r: Self)
        ensures
            r.token == token,
            r.store_path == store_path,
    {
        BotConfig { token, store_path }
    }
}

/// The configuration to run with, from what the command line gave: the text
/// of the configuration file where one was named, else the token alone.
/// The file wins over the token.
pub fn parse_conf(token: Option<String>, conf_text: Option<String>) -> (r: Result<
    Config,
    ConfigError,
>)
    ensures
        match (token, conf_text) {
            (_, Some(text)) => match ini_parse(text@) {
                None => r matches Err(ConfigError::Syntax(_)),
                Some(entries) => match Config::of_entries(entries) {
                    Some((name, tok)) => r matches Ok(c) && c.name@ == name && c.token@ == tok,
                    None => r matches Err(ConfigError::Incomplete),
                },
            },
            (Some(t), None) => r matches Ok(c) && c.name@ == Seq::<char>::empty() && c.token
                == t,
            (None, None) => r matches Err(ConfigError::Missing),
        },
{
    match conf_text {
        Some(text) => Config::from_ini(text.as_str()),
        None => match token {
            Some(t) => Ok(Config { name: String::new(), token: t }),
            None => Err(ConfigError::Missing),
        },
    }
}

} // verus!
