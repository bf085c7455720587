//! The configuration of a node: an INI document with a `[dht]` section.

use crate::constants::POW_DIFFICULTY;
use crate::types::Address;
use ini::{Ini, ParseError};
use std::str::FromStr;
use vstd::prelude::*;
use vstd::string::StrSliceExecFns;

verus! {

/// An INI document, as the `ini` crate holds it.
#[verifier::external_type_specification]
#[verifier::external_body]
pub struct ExIni(Ini);

/// What the `ini` crate reports of a text that is no document.
#[verifier::external_type_specification]
#[verifier::external_body]
pub struct ExParseError(ParseError);

/// What an INI document holds: for each of its sections, by name, the
/// values of the section, by key. Of a name or a key that occurs more than
/// once the first occurrence counts.
pub uninterp spec fn ini_sections(document: Ini) -> Map<Seq<char>, Map<Seq<char>, Seq<char>>>;

/// What `Ini::load_from_str` reads out of a text: the sections of the
/// document, or nothing where the text is no INI document.
pub uninterp spec fn ini_parse(text: Seq<char>) -> Option<Map<Seq<char>, Map<Seq<char>, Seq<char>>>>;

/// How much a node logs.
#[derive(Clone, Copy, Debug, PartialEq, Eq, Structural)]
pub enum LogLevel {
    Off,
    Error,
    Warn,
    Info,
    Debug,
    Trace,
}

/// A key of the `[dht]` section whose value is missing or wrong.
#[derive(Clone, Copy, Debug, PartialEq, Eq, Structural)]
pub enum ConfigKey {
    P2pAddress,
    ApiAddress,
    PowDifficulty,
    LogLevel,
    DevMode,
}

/// Why a text is no configuration.
#[derive(Clone, Copy, Debug, PartialEq, Eq, Structural)]
pub enum ConfigError {
    /// The text is no INI document.
    Syntax,
    /// The document has no `[dht]` section.
    MissingSection,
    /// The section lacks a key that every node needs.
    MissingKey(ConfigKey),
    /// The value of a key is not of the kind the key takes.
    InvalidValue(ConfigKey),
}

/// The configuration of a node.
#[derive(Clone, Debug)]
pub struct Config {
    /// Where the node listens for clients.
    pub api_address: Address,
    /// Where the node listens for peers.
    pub p2p_address: Address,
    /// Where the node serves its dashboard, if it serves one.
    pub web_address: Option<Address>,
    /// The peer through which the node joins; without one it starts a ring.
    pub join_address: Option<Address>,
    /// The difficulty of the proof of work that admission asks for; 0 asks
    /// for none.
    pub pow_difficulty: usize,
    /// How much the node logs.
    pub log_level_filter: LogLevel,
    /// Whether the node relaxes its checks for local testing.
    pub dev_mode: bool,
}

/// What a [`Config`] holds.
pub struct ConfigView {
    pub api_address: Seq<char>,
    pub p2p_address: Seq<char>,
    pub web_address: Option<Seq<char>>,
    pub join_address: Option<Seq<char>>,
    pub pow_difficulty: usize,
    pub log_level_filter: LogLevel,
    pub dev_mode: bool,
}

/// The text of `value`, if there is one.
pub open spec fn text_view(value: Option<String>) -> Option<Seq<char>> {
    match value {
        Some(v) => Some(v@),
        None => None,
    }
}

impl View for Config {
    type V = ConfigView;

    open spec fn view(&self) -> ConfigView {
        ConfigView {
            api_address: self.api_address@,
            p2p_address: self.p2p_address@,
            web_address: text_view(self.web_address),
            join_address: text_view(self.join_address),
            pow_difficulty: self.pow_difficulty,
            log_level_filter: self.log_level_filter,
            dev_mode: self.dev_mode,
        }
    }
}

/// The values of the `[dht]` section that a configuration is made of, each
/// as it stands in the document, if it stands there.
pub struct Entries {
    pub p2p_address: Option<String>,
    pub api_address: Option<String>,
    pub web_address: Option<String>,
    pub join_address: Option<String>,
    pub pow_difficulty: Option<String>,
    pub log_level: Option<String>,
    pub dev_mode: Option<String>,
}

/// What [`Entries`] hold.
pub struct EntriesView {
    pub p2p_address: Option<Seq<char>>,
    pub api_address: Option<Seq<char>>,
    pub web_address: Option<Seq<char>>,
    pub join_address: Option<Seq<char>>,
    pub pow_difficulty: Option<Seq<char>>,
    pub log_level: Option<Seq<char>>,
    pub dev_mode: Option<Seq<char>>,
}

impl View for Entries {
    type V = EntriesView;

    open spec fn view(&self) -> EntriesView {
        EntriesView {
            p2p_address: text_view(self.p2p_address),
            api_address: text_view(self.api_address),
            web_address: text_view(self.web_address),
            join_address: text_view(self.join_address),
            pow_difficulty: text_view(self.pow_difficulty),
            log_level: text_view(self.log_level),
            dev_mode: text_view(self.dev_mode),
        }
    }
}

/// The value of `key` in `section`, if it has one.
pub open spec fn lookup(section: Map<Seq<char>, Seq<char>>, key: Seq<char>) -> Option<Seq<char>> {
    if section.contains_key(key) {
        Some(section[key])
    } else {
        None
    }
}

/// The entries that a `[dht]` section holds.
pub open spec fn section_entries(section: Map<Seq<char>, Seq<char>>) -> EntriesView {
    EntriesView {
        p2p_address: lookup(section, "p2p_address"@),
        api_address: lookup(section, "api_address"@),
        web_address: lookup(section, "web_address"@),
        join_address: lookup(section, "join_address"@),
        pow_difficulty: lookup(section, "pow_difficulty"@),
        log_level: lookup(section, "log_level"@),
        dev_mode: lookup(section, "dev_mode"@),
    }
}

/// The letter `c`, in lower case where it is an ASCII capital.
pub open spec fn ascii_lower(c: char) -> char {
    if 'A' <= c <= 'Z' {
        ((c as u8) + 32) as char
    } else {
        c
    }
}

/// Whether two texts differ at most in the case of their ASCII letters.
pub open spec fn same_ignoring_case(a: Seq<char>, b: Seq<char>) -> bool {
    &&& a.len() == b.len()
    &&& forall|i: int| 0 <= i < a.len() ==> ascii_lower(#[trigger] a[i]) == ascii_lower(b[i])
}

/// The level that a text names, in whatever case it is written.
pub open spec fn spec_log_level(text: Seq<char>) -> Option<LogLevel> {
    if same_ignoring_case(text, seq!['o', 'f', 'f']) {
        Some(LogLevel::Off)
    } else if same_ignoring_case(text, seq!['e', 'r', 'r', 'o', 'r']) {
        Some(LogLevel::Error)
    } else if same_ignoring_case(text, seq!['w', 'a', 'r', 'n']) {
        Some(LogLevel::Warn)
    } else if same_ignoring_case(text, seq!['i', 'n', 'f', 'o']) {
        Some(LogLevel::Info)
    } else if same_ignoring_case(text, seq!['d', 'e', 'b', 'u', 'g']) {
        Some(LogLevel::Debug)
    } else if same_ignoring_case(text, seq!['t', 'r', 'a', 'c', 'e']) {
        Some(LogLevel::Trace)
    } else {
        None
    }
}

/// Whether `c` is a decimal digit.
pub open spec fn is_digit(c: char) -> bool {
    '0' <= c <= '9'
}

/// Whether `text` is made of decimal digits.
pub open spec fn all_digits(text: Seq<char>) -> bool {
    forall|i: int| 0 <= i < text.len() ==> is_digit(#[trigger] text[i])
}

/// The number that the digits of `text` spell out.
pub open spec fn decimal_value(text: Seq<char>) -> int
    decreases text.len(),
{
    if text.len() == 0 {
        0
    } else {
        decimal_value(text.drop_last()) * 10 + (text.last() as int - '0' as int)
    }
}

/// The number that a text spells out: the text is made of one decimal
/// digit or more, and the number is one that the machine can count to.
pub open spec fn spec_parse_number(text: Seq<char>) -> Option<usize> {
    if text.len() > 0 && all_digits(text) && decimal_value(text) <= usize::MAX {
        Some(decimal_value(text) as usize)
    } else {
        None
    }
}

/// The truth value that a text spells out.
pub open spec fn spec_parse_bool(text: Seq<char>) -> Option<bool> {
    if text == "true"@ {
        Some(true)
    } else if text == "false"@ {
        Some(false)
    } else {
        None
    }
}

/// The configuration that the entries of a `[dht]` section make, or what
/// is wrong with them. A node needs the addresses on which it listens for
/// peers and for clients; the other keys may be missing.
pub open spec fn spec_config(entries: EntriesView) -> Result<ConfigView, ConfigError> {
    if entries.p2p_address is None {
        Err(ConfigError::MissingKey(ConfigKey::P2pAddress))
    } else if entries.api_address is None {
        Err(ConfigError::MissingKey(ConfigKey::ApiAddress))
    } else if entries.pow_difficulty is Some && spec_parse_number(
        entries.pow_difficulty->Some_0,
    ) is None {
        Err(ConfigError::InvalidValue(ConfigKey::PowDifficulty))
    } else if entries.log_level is Some && spec_log_level(entries.log_level->Some_0) is None {
        Err(ConfigError::InvalidValue(ConfigKey::LogLevel))
    } else if entries.dev_mode is Some && spec_parse_bool(entries.dev_mode->Some_0) is None {
        Err(ConfigError::InvalidValue(ConfigKey::DevMode))
    } else {
        Ok(
            ConfigView {
                api_address: entries.api_address->Some_0,
                p2p_address: entries.p2p_address->Some_0,
                web_address: entries.web_address,
                join_address: entries.join_address,
                pow_difficulty: match entries.pow_difficulty {
                    Some(text) => spec_parse_number(text)->Some_0,
                    None => POW_DIFFICULTY,
                },
                log_level_filter: match entries.log_level {
                    Some(text) => spec_log_level(text)->Some_0,
                    None => LogLevel::Info,
                },
                dev_mode: match entries.dev_mode {
                    Some(text) => spec_parse_bool(text)->Some_0,
                    None => false,
                },
            },
        )
    }
}

/// The configuration that a text holds, given the sections that it parses
/// to, or what is wrong with it.
pub open spec fn spec_load(
    parsed: Option<Map<Seq<char>, Map<Seq<char>, Seq<char>>>>,
) -> Result<ConfigView, ConfigError> {
    match parsed {
        None => Err(ConfigError::Syntax),
        Some(sections) => if sections.contains_key("dht"@) {
            spec_config(section_entries(sections["dht"@]))
        } else {
            Err(ConfigError::MissingSection)
        },
    }
}

/// Calls `Ini::load_from_str`. The contract names what it reads out of a
/// text: the document that comes back holds it, and no document comes back
/// where the text is none.
#[verifier::external_body]
fn ini_load(text: &str) -> (loaded: Result<Ini, ParseError>)
    ensures
        match loaded {
            Ok(document) => ini_parse(text@) == Some(ini_sections(document)),
            Err(_) => ini_parse(text@) is None,
        },
{
    Ini::load_from_str(text)
}

/// Calls `Ini::section` and says whether the document has a section of
/// that name.
#[verifier::external_body]
fn ini_has_section(document: &Ini, section: &str) -> (present: bool)
    ensures
        present == ini_sections(*document).contains_key(section@),
{
    document.section(Some(section)).is_some()
}

/// Calls `Ini::get_from`: the value of `key` in the section named
/// `section`, or nothing where the document has no such section or the
/// section no such key.
#[verifier::external_body]
fn ini_get(document: &Ini, section: &str, key: &str) -> (value: Option<String>)
    ensures
        text_view(value) == (if ini_sections(*document).contains_key(section@) {
            lookup(ini_sections(*document)[section@], key@)
        } else {
            None
        }),
{
    document.get_from(Some(section), key).map(|text| text.to_string())
}

/// Calls `LevelFilter::from_str` of the `log` crate, which knows the
/// levels by their names in any case, and turns the level into one of this
/// library.
#[verifier::external_body]
fn parse_log_level(text: &str) -> (level: Option<LogLevel>)
    ensures
        level == spec_log_level(text@),
{
    match log::LevelFilter::from_str(text) {
        Ok(log::LevelFilter::Off) => Some(LogLevel::Off),
        Ok(log::LevelFilter::Error) => Some(LogLevel::Error),
        Ok(log::LevelFilter::Warn) => Some(LogLevel::Warn),
        Ok(log::LevelFilter::Info) => Some(LogLevel::Info),
        Ok(log::LevelFilter::Debug) => Some(LogLevel::Debug),
        Ok(log::LevelFilter::Trace) => Some(LogLevel::Trace),
        Err(_) => None,
    }
}

/// The digits of a text spell out no smaller a number than its first
/// digits do.
proof fn lemma_decimal_value_grows(text: Seq<char>, n: int)
    requires
        all_digits(text),
        0 <= n <= text.len(),
    ensures
        0 <= decimal_value(text.take(n)) <= decimal_value(text),
    decreases text.len() - n,
{
    if n == text.len() {
        assert(text.take(n) =~= text);
        lemma_decimal_value_nonnegative(text);
    } else {
        lemma_decimal_value_grows(text, n + 1);
        let longer = text.take(n + 1);
        assert(longer.drop_last() =~= text.take(n));
        assert(is_digit(text[n]));
        assert(longer.last() == text[n]);
        lemma_decimal_value_nonnegative(text.take(n));
    }
}

/// The digits of a text spell out a number that is not negative.
proof fn lemma_decimal_value_nonnegative(text: Seq<char>)
    requires
        all_digits(text),
    ensures
        0 <= decimal_value(text),
    decreases text.len(),
{
    if text.len() > 0 {
        assert(is_digit(text[text.len() - 1]));
        lemma_decimal_value_nonnegative(text.drop_last());
    }
}

/// Reads a number from its decimal digits.
pub fn parse_number(text: &str) -> (number: Option<usize>)
    ensures
        number == spec_parse_number(text@),
{
    let length: usize = text.unicode_len();
    if length == 0 {
        return None;
    }
    let mut value: usize = 0;
    let mut i: usize = 0;
    while i < length
        invariant
            i <= length == text@.len(),
            all_digits(text@.take(i as int)),
            value == decimal_value(text@.take(i as int)),
        decreases length - i,
    {
        let c: char = text.get_char(i);
        if !(c >= '0' && c <= '9') {
            assert(!is_digit(text@[i as int]));
            return None;
        }
        let digit: usize = (c as u32 - '0' as u32) as usize;
        proof {
            let longer = text@.take(i + 1);
            assert(longer.drop_last() =~= text@.take(i as int));
            assert(longer.last() == c);
            assert forall|j: int| 0 <= j < longer.len() implies is_digit(#[trigger] longer[j]) by {
                if j < i {
                    assert(is_digit(text@.take(i as int)[j]));
                }
            }
        }
        let next: Option<usize> = match value.checked_mul(10) {
            Some(scaled) => scaled.checked_add(digit),
            None => None,
        };
        match next {
            Some(n) => {
                value = n;
            },
            None => {
                proof {
                    if all_digits(text@) {
                        lemma_decimal_value_grows(text@, i + 1);
                    }
                }
                return None;
            },
        }
        i = i + 1;
    }
    assert(text@.take(length as int) =~= text@);
    Some(value)
}

/// Reads a truth value: `true` or `false`, written just so.
pub fn parse_bool(text: &String) -> (value: Option<bool>)
    ensures
        value == spec_parse_bool(text@),
{
    if *text == "true".to_owned() {
        Some(true)
    } else if *text == "false".to_owned() {
        Some(false)
    } else {
        None
    }
}

impl Config {
    /// The configuration that the entries of a `[dht]` section make.
    pub fn from_entries(entries: Entries) -> (config: Result<Config, ConfigError>)
        ensures
            match config {
                Ok(c) => spec_config(entries@) == Ok::<ConfigView, ConfigError>(c@),
                Err(e) => spec_config(entries@) == Err::<ConfigView, ConfigError>(e),
            },
    {
        let p2p_address = match entries.p2p_address {
            Some(address) => address,
            None => {
                return Err(ConfigError::MissingKey(ConfigKey::P2pAddress));
            },
        };
        let api_address = match entries.api_address {
            Some(address) => address,
            None => {
                return Err(ConfigError::MissingKey(ConfigKey::ApiAddress));
            },
        };
        let pow_difficulty: usize = match &entries.pow_difficulty {
            Some(text) => match parse_number(text.as_str()) {
                Some(number) => number,
                None => {
                    return Err(ConfigError::InvalidValue(ConfigKey::PowDifficulty));
                },
            },
            None => POW_DIFFICULTY,
        };
        let log_level_filter = match &entries.log_level {
            Some(text) => match parse_log_level(text.as_str()) {
                Some(level) => level,
                None => {
                    return Err(ConfigError::InvalidValue(ConfigKey::LogLevel));
                },
            },
            None => LogLevel::Info,
        };
        let dev_mode = match &entries.dev_mode {
            Some(text) => match parse_bool(text) {
                Some(value) => value,
                None => {
                    return Err(ConfigError::InvalidValue(ConfigKey::DevMode));
                },
            },
            None => false,
        };
        Ok(
            Config {
                api_address,
                p2p_address,
                web_address: entries.web_address,
                join_address: entries.join_address,
                pow_difficulty,
                log_level_filter,
                dev_mode,
            },
        )
    }

    /// The configuration that the text of a configuration file holds.
    pub fn load(text: &str) -> (config: Result<Config, ConfigError>)
        ensures
            match config {
                Ok(c) => spec_load(ini_parse(text@)) == Ok::<ConfigView, ConfigError>(c@),
                Err(e) => spec_load(ini_parse(text@)) == Err::<ConfigView, ConfigError>(e),
            },
    {
        let document = match ini_load(text) {
            Ok(document) => document,
            Err(_) => {
                return Err(ConfigError::Syntax);
            },
        };
        if !ini_has_section(&document, "dht") {
            return Err(ConfigError::MissingSection);
        }
        let entries = Entries {
            p2p_address: ini_get(&document, "dht", "p2p_address"),
            api_address: ini_get(&document, "dht", "api_address"),
            web_address: ini_get(&document, "dht", "web_address"),
            join_address: ini_get(&document, "dht", "join_address"),
            pow_difficulty: ini_get(&document, "dht", "pow_difficulty"),
            log_level: ini_get(&document, "dht", "log_level"),
            dev_mode: ini_get(&document, "dht", "dev_mode"),
        };
        Config::from_entries(entries)
    }
}

} // verus!
