//! The settings of the `[preprocessor.lang]` table of `book.toml`, as the
//! renderer reads them.
use vstd::prelude::*;
use crate::text::str_equal;

verus! {

/// The value of one setting.
pub enum ConfigValue {
    Bool(bool),
    Str(String),
    /// A value of another TOML type (number, array, table, date).
    Other,
}

/// One setting: its key, dotted where the setting sits in a nested table
/// (`cpp.server`), and its value.
pub struct ConfigEntry {
    pub key: String,
    pub value: ConfigValue,
}

/// The settings of the `[preprocessor.lang]` table, in the order the table
/// lists them.
pub struct LangConfig {
    pub entries: Vec<ConfigEntry>,
}

/// The value of the first setting whose key is `key`.
pub open spec fn lookup(entries: Seq<ConfigEntry>, key: Seq<char>) -> Option<ConfigValue>
    decreases entries.len(),
{
    if entries.len() == 0 {
        None
    } else if entries[0].key@ == key {
        Some(entries[0].value)
    } else {
        lookup(entries.drop_first(), key)
    }
}

/// The boolean setting `key`, or `default` where it is missing or not a boolean.
pub open spec fn config_bool(config: LangConfig, key: Seq<char>, default: bool) -> bool {
    match lookup(config.entries@, key) {
        Some(ConfigValue::Bool(b)) => b,
        _ => default,
    }
}

/// The string setting `key`, or `default` where it is missing or not a string.
pub open spec fn config_str(config: LangConfig, key: Seq<char>, default: Seq<char>) -> Seq<char> {
    match lookup(config.entries@, key) {
        Some(ConfigValue::Str(s)) => s@,
        _ => default,
    }
}

/// The index of the first setting named `key`, where there is one.
fn find_entry(config: &LangConfig, key: &str) -> (res: Option<usize>)
    ensures
        match res {
            Some(i) => i < config.entries@.len() && lookup(config.entries@, key@) == Some(
                config.entries@[i as int].value,
            ),
            None => lookup(config.entries@, key@) is None,
        },
{
    let mut i: usize = 0;
    assert(config.entries@.skip(0) =~= config.entries@);
    while i < config.entries.len()
        invariant
            i <= config.entries@.len(),
            lookup(config.entries@, key@) == lookup(config.entries@.skip(i as int), key@),
        decreases config.entries@.len() - i,
    {
        assert(config.entries@.skip(i as int)[0] == config.entries@[i as int]);
        assert(config.entries@.skip(i as int).drop_first() =~= config.entries@.skip(i + 1));
        if str_equal(config.entries[i].key.as_str(), key) {
            return Some(i);
        }
        i += 1;
    }
    None
}

/// The boolean setting `key` of `config`, or `default`.
pub fn get_config_bool(config: &LangConfig, key: &str, default: bool) -> (res: bool)
    ensures
        res == config_bool(*config, key@, default),
{
    match find_entry(config, key) {
        Some(i) => match &config.entries[i].value {
            ConfigValue::Bool(b) => *b,
            _ => default,
        },
        None => default,
    }
}

/// The string setting `key` of `config`, or `default`.
pub fn get_config_string(config: &LangConfig, key: &str, default: &str) -> (res: String)
    ensures
        res@ == config_str(*config, key@, default@),
{
    match find_entry(config, key) {
        Some(i) => match &config.entries[i].value {
            ConfigValue::Str(s) => s.clone(),
            _ => default.to_owned(),
        },
        None => default.to_owned(),
    }
}

}
