use chord::config::{
    parse_bool, parse_number, Config, ConfigError, ConfigKey, Entries, LogLevel,
};
use chord::constants::POW_DIFFICULTY;

fn some(text: &str) -> Option<String> {
    Some(text.to_string())
}

fn entries_with_addresses() -> Entries {
    Entries {
        p2p_address: some("127.0.0.1:5601"),
        api_address: some("127.0.0.1:5501"),
        web_address: None,
        join_address: None,
        pow_difficulty: None,
        log_level: None,
        dev_mode: None,
    }
}

#[test]
fn load_a_full_configuration() {
    let text = "[dht]\n\
                p2p_address = 127.0.0.1:5602\n\
                api_address = 127.0.0.1:5502\n\
                web_address = 127.0.0.1:5702\n\
                join_address = 127.0.0.1:5601\n\
                pow_difficulty = 3\n\
                log_level = debug\n\
                dev_mode = true\n";
    let config = Config::load(text).unwrap();
    assert_eq!(config.p2p_address, "127.0.0.1:5602");
    assert_eq!(config.api_address, "127.0.0.1:5502");
    assert_eq!(config.web_address, some("127.0.0.1:5702"));
    assert_eq!(config.join_address, some("127.0.0.1:5601"));
    assert_eq!(config.pow_difficulty, 3);
    assert_eq!(config.log_level_filter, LogLevel::Debug);
    assert!(config.dev_mode);
}

#[test]
fn load_the_least_configuration() {
    let text = "[dht]\np2p_address=a:1\napi_address=b:2\n";
    let config = Config::load(text).unwrap();
    assert_eq!(config.p2p_address, "a:1");
    assert_eq!(config.api_address, "b:2");
    assert_eq!(config.web_address, None);
    assert_eq!(config.join_address, None);
    assert_eq!(config.pow_difficulty, POW_DIFFICULTY);
    assert_eq!(config.log_level_filter, LogLevel::Info);
    assert!(!config.dev_mode);
}

#[test]
fn load_reads_the_dht_section_only() {
    let text = "p2p_address = top:1\n\
                [other]\n\
                p2p_address = other:1\n\
                api_address = other:2\n\
                [dht]\n\
                p2p_address = dht:1\n\
                api_address = dht:2\n\
                pow_difficulty = 0\n";
    let config = Config::load(text).unwrap();
    assert_eq!(config.p2p_address, "dht:1");
    assert_eq!(config.api_address, "dht:2");
    assert_eq!(config.pow_difficulty, 0);
}

#[test]
fn load_fails_on_what_is_no_document() {
    assert_eq!(Config::load("[dht\np2p_address = a\n").err(), Some(ConfigError::Syntax));
}

#[test]
fn load_fails_without_the_section() {
    assert_eq!(Config::load("").err(), Some(ConfigError::MissingSection));
    assert_eq!(
        Config::load("[node]\np2p_address = a\napi_address = b\n").err(),
        Some(ConfigError::MissingSection)
    );
    assert_eq!(
        Config::load("p2p_address = a\napi_address = b\n").err(),
        Some(ConfigError::MissingSection)
    );
}

#[test]
fn load_fails_without_an_address() {
    assert_eq!(
        Config::load("[dht]\napi_address = b\n").err(),
        Some(ConfigError::MissingKey(ConfigKey::P2pAddress))
    );
    assert_eq!(
        Config::load("[dht]\np2p_address = a\n").err(),
        Some(ConfigError::MissingKey(ConfigKey::ApiAddress))
    );
    assert_eq!(
        Config::load("[dht]\nweb_address = w\n").err(),
        Some(ConfigError::MissingKey(ConfigKey::P2pAddress))
    );
}

#[test]
fn load_fails_on_a_wrong_value() {
    let with = |line: &str| {
        Config::load(&format!("[dht]\np2p_address = a\napi_address = b\n{}\n", line)).err()
    };
    assert_eq!(with("pow_difficulty = many"), Some(ConfigError::InvalidValue(ConfigKey::PowDifficulty)));
    assert_eq!(with("pow_difficulty = -1"), Some(ConfigError::InvalidValue(ConfigKey::PowDifficulty)));
    assert_eq!(with("log_level = loud"), Some(ConfigError::InvalidValue(ConfigKey::LogLevel)));
    assert_eq!(with("dev_mode = yes"), Some(ConfigError::InvalidValue(ConfigKey::DevMode)));
    assert_eq!(with("dev_mode = True"), Some(ConfigError::InvalidValue(ConfigKey::DevMode)));
    assert_eq!(with("dev_mode = false"), None);
}

#[test]
fn from_entries_reports_the_first_fault() {
    let mut entries = entries_with_addresses();
    entries.p2p_address = None;
    entries.api_address = None;
    entries.pow_difficulty = some("x");
    assert_eq!(
        Config::from_entries(entries).err(),
        Some(ConfigError::MissingKey(ConfigKey::P2pAddress))
    );
    let mut entries = entries_with_addresses();
    entries.pow_difficulty = some("x");
    entries.log_level = some("x");
    entries.dev_mode = some("x");
    assert_eq!(
        Config::from_entries(entries).err(),
        Some(ConfigError::InvalidValue(ConfigKey::PowDifficulty))
    );
    let mut entries = entries_with_addresses();
    entries.log_level = some("x");
    entries.dev_mode = some("x");
    assert_eq!(
        Config::from_entries(entries).err(),
        Some(ConfigError::InvalidValue(ConfigKey::LogLevel))
    );
}

#[test]
fn from_entries_knows_every_log_level() {
    for (text, level) in [
        ("off", LogLevel::Off),
        ("OFF", LogLevel::Off),
        ("error", LogLevel::Error),
        ("Warn", LogLevel::Warn),
        ("INFO", LogLevel::Info),
        ("debug", LogLevel::Debug),
        ("tRaCe", LogLevel::Trace),
    ] {
        let mut entries = entries_with_addresses();
        entries.log_level = some(text);
        assert_eq!(Config::from_entries(entries).unwrap().log_level_filter, level);
    }
    for text in ["", "warning", "inf", "info ", "0"] {
        let mut entries = entries_with_addresses();
        entries.log_level = some(text);
        assert_eq!(
            Config::from_entries(entries).err(),
            Some(ConfigError::InvalidValue(ConfigKey::LogLevel))
        );
    }
}

#[test]
fn parse_number_reads_decimal_digits() {
    assert_eq!(parse_number("0"), Some(0));
    assert_eq!(parse_number("7"), Some(7));
    assert_eq!(parse_number("007"), Some(7));
    assert_eq!(parse_number("1234567890"), Some(1234567890));
    assert_eq!(parse_number(&usize::MAX.to_string()), Some(usize::MAX));
    assert_eq!(parse_number(""), None);
    assert_eq!(parse_number("-1"), None);
    assert_eq!(parse_number("+1"), None);
    assert_eq!(parse_number("1 "), None);
    assert_eq!(parse_number("12a"), None);
    assert_eq!(parse_number("٣"), None);
    assert_eq!(parse_number("18446744073709551616"), None);
    assert_eq!(parse_number("99999999999999999999999999"), None);
}

#[test]
fn parse_bool_reads_true_and_false() {
    assert_eq!(parse_bool(&String::from("true")), Some(true));
    assert_eq!(parse_bool(&String::from("false")), Some(false));
    assert_eq!(parse_bool(&String::from("True")), None);
    assert_eq!(parse_bool(&String::from("1")), None);
    assert_eq!(parse_bool(&String::from("")), None);
}
