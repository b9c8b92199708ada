use market_capture::domain::MarketCoinError;
use market_capture::trader::config::{
    parse_market_coins, parse_positive_usize, ConfigError, Environment, TraderConfig, Variable,
};
use market_capture::trader::metadata::{collector_label, configured_markets};

fn present(text: &str) -> Variable {
    Variable::Present(text.to_owned())
}

fn environment() -> Environment {
    Environment {
        market_coins: present("BTC,ETH"),
        enable_hyperliquid: Variable::Absent,
        trade_dedup_capacity: Variable::Absent,
        data_dir: present("/data"),
        recorder_queue_capacity: Variable::Absent,
        capture_duration_seconds: Variable::Absent,
    }
}

#[test]
fn trims_entries_while_preserving_case_and_punctuation() {
    let coins = parse_market_coins("TEST_COINS", " BTC, eth, dex-name:Coin_1 ").unwrap();
    let values = coins.iter().map(|coin| coin.as_str()).collect::<Vec<_>>();
    assert_eq!(values, ["BTC", "eth", "dex-name:Coin_1"]);
}

#[test]
fn rejects_empty_entries() {
    assert!(matches!(
        parse_market_coins("TEST_COINS", "BTC,,ETH"),
        Err(ConfigError::InvalidCoin { position: 2, .. })
    ));
    assert!(parse_market_coins("TEST_COINS", "   ").is_err());
}

#[test]
fn rejects_internal_whitespace_control_characters_and_exact_duplicates() {
    assert!(parse_market_coins("TEST_COINS", "BTC,ET H").is_err());
    assert!(parse_market_coins("TEST_COINS", "BTC,ET\0H").is_err());
    assert!(matches!(
        parse_market_coins("TEST_COINS", "BTC,ETH,BTC"),
        Err(ConfigError::DuplicateCoin { .. })
    ));
    assert!(parse_market_coins("TEST_COINS", "BTC,btc").is_ok());
}

#[test]
fn dedup_capacity_must_be_a_positive_integer() {
    assert_eq!(
        parse_positive_usize("TEST", "1000000").unwrap(),
        1_000_000
    );
    assert!(matches!(
        parse_positive_usize("TEST", "0"),
        Err(ConfigError::InvalidPositiveInteger { .. })
    ));
    assert!(parse_positive_usize("TEST", "many").is_err());
}

#[test]
fn defaults_stand_for_absent_variables() {
    let config = TraderConfig::load(environment()).unwrap();
    assert_eq!(configured_markets(&config.market_coins), "BTC, ETH");
    assert!(config.enable_hyperliquid);
    assert_eq!(config.trade_dedup_capacity, 1_000_000);
    assert_eq!(config.data_dir, "/data");
    assert_eq!(config.recorder_queue_capacity, 4_096);
    assert_eq!(config.capture_duration_seconds, 7_200);
}

#[test]
fn present_variables_are_read() {
    let config = TraderConfig::load(Environment {
        enable_hyperliquid: present("false"),
        trade_dedup_capacity: present("+12"),
        recorder_queue_capacity: present("007"),
        capture_duration_seconds: present("18446744073709551615"),
        ..environment()
    })
    .unwrap();
    assert!(!config.enable_hyperliquid);
    assert_eq!(config.trade_dedup_capacity, 12);
    assert_eq!(config.recorder_queue_capacity, 7);
    assert_eq!(config.capture_duration_seconds, u64::MAX);
}

#[test]
fn every_fault_of_the_settings_is_named() {
    let cases = [
        (
            Environment {
                market_coins: Variable::NotUnicode,
                ..environment()
            },
            "MARKET_COINS is not set; copy backend/.env.example to backend/.env",
        ),
        (
            Environment {
                enable_hyperliquid: present("yes"),
                ..environment()
            },
            "ENABLE_HYPERLIQUID must be true or false, received \"yes\"",
        ),
        (
            Environment {
                enable_hyperliquid: Variable::NotUnicode,
                ..environment()
            },
            "ENABLE_HYPERLIQUID must be true or false, received \"<non-unicode>\"",
        ),
        (
            Environment {
                trade_dedup_capacity: present("-1"),
                ..environment()
            },
            "TRADE_DEDUP_CAPACITY must be a positive integer, received \"-1\"",
        ),
        (
            Environment {
                data_dir: Variable::Absent,
                ..environment()
            },
            "DATA_DIR is not set; copy backend/.env.example to backend/.env",
        ),
        (
            Environment {
                data_dir: present("data"),
                ..environment()
            },
            "DATA_DIR must be an absolute path outside the repository, received \"data\"",
        ),
        (
            Environment {
                recorder_queue_capacity: present("+"),
                ..environment()
            },
            "RECORDER_QUEUE_CAPACITY must be a positive integer, received \"+\"",
        ),
        (
            Environment {
                capture_duration_seconds: present("18446744073709551616"),
                ..environment()
            },
            "CAPTURE_DURATION_SECONDS must be a positive integer, received \"18446744073709551616\"",
        ),
        (
            Environment {
                market_coins: present("BTC, "),
                ..environment()
            },
            "invalid MARKET_COINS entry 2: market coin is empty",
        ),
        (
            Environment {
                market_coins: present("BTC,BTC"),
                ..environment()
            },
            "duplicate MARKET_COINS entry: BTC",
        ),
    ];
    for (environment, text) in cases {
        assert_eq!(TraderConfig::load(environment).unwrap_err().to_text(), text);
    }
    assert_eq!(
        ConfigError::EnvFile("line 3".to_owned()).to_text(),
        "failed to load backend/.env: line 3"
    );
}

#[test]
fn the_first_fault_counts() {
    let error = TraderConfig::load(Environment {
        market_coins: present("BTC,,"),
        data_dir: present("relative"),
        ..environment()
    })
    .unwrap_err();
    assert_eq!(
        error,
        ConfigError::DataDirectoryMustBeAbsolute("relative".to_owned())
    );
    assert!(matches!(
        parse_market_coins("X", "A,\u{1},\u{1}"),
        Err(ConfigError::InvalidCoin {
            position: 2,
            source: MarketCoinError::ControlCharacter,
            ..
        })
    ));
}

#[test]
fn a_collector_goes_by_its_label_or_its_host() {
    assert_eq!(
        collector_label(present("rack-1"), present("host")),
        "rack-1"
    );
    assert_eq!(collector_label(Variable::Absent, present("host")), "host");
    assert_eq!(
        collector_label(Variable::NotUnicode, Variable::Absent),
        "unknown"
    );
}
