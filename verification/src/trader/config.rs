//! The settings of the trader.
use vstd::prelude::*;

use crate::domain::symbol::market_coin_error;
use crate::domain::{MarketCoin, MarketCoinError};
use crate::parsing::{
    parse_unsigned, split, split_text, trim_text, trimmed, unsigned_value, unsigned_within,
};
use crate::text::{debug_rendering, debug_text, decimal, decimal_text, same_text};

verus! {

/// The default number of trades that are remembered.
pub const DEFAULT_TRADE_DEDUP_CAPACITY: usize = 1_000_000;

/// The default number of events that may wait for the recorder.
pub const DEFAULT_RECORDER_QUEUE_CAPACITY: usize = 4_096;

/// The default length of a capture: two hours.
pub const DEFAULT_CAPTURE_DURATION_SECONDS: u64 = 7_200;

/// What the environment says of a variable.
#[derive(Debug, Eq, PartialEq)]
pub enum Variable {
    Present(String),
    Absent,
    NotUnicode,
}

/// The model of `Variable`.
pub enum VariableView {
    Present(Seq<char>),
    Absent,
    NotUnicode,
}

impl View for Variable {
    type V = VariableView;

    open spec fn view(&self) -> VariableView {
        match *self {
            Variable::Present(value) => VariableView::Present(value@),
            Variable::Absent => VariableView::Absent,
            Variable::NotUnicode => VariableView::NotUnicode,
        }
    }
}

/// The variables that the trader reads.
#[derive(Debug, Eq, PartialEq)]
pub struct Environment {
    pub market_coins: Variable,
    pub enable_hyperliquid: Variable,
    pub trade_dedup_capacity: Variable,
    pub data_dir: Variable,
    pub recorder_queue_capacity: Variable,
    pub capture_duration_seconds: Variable,
}

/// The model of `Environment`.
pub struct EnvironmentView {
    pub market_coins: VariableView,
    pub enable_hyperliquid: VariableView,
    pub trade_dedup_capacity: VariableView,
    pub data_dir: VariableView,
    pub recorder_queue_capacity: VariableView,
    pub capture_duration_seconds: VariableView,
}

impl View for Environment {
    type V = EnvironmentView;

    open spec fn view(&self) -> EnvironmentView {
        EnvironmentView {
            market_coins: self.market_coins@,
            enable_hyperliquid: self.enable_hyperliquid@,
            trade_dedup_capacity: self.trade_dedup_capacity@,
            data_dir: self.data_dir@,
            recorder_queue_capacity: self.recorder_queue_capacity@,
            capture_duration_seconds: self.capture_duration_seconds@,
        }
    }
}

/// Why the settings cannot be used.
#[derive(Debug, Eq, PartialEq)]
pub enum ConfigError {
    EnvFile(String),
    MissingVariable(&'static str),
    InvalidCoin { variable: &'static str, position: usize, source: MarketCoinError },
    DuplicateCoin { variable: &'static str, coin: MarketCoin },
    InvalidPositiveInteger { variable: &'static str, value: String },
    InvalidBoolean { variable: &'static str, value: String },
    DataDirectoryMustBeAbsolute(String),
}

/// The model of `ConfigError`.
#[allow(inconsistent_fields)]
pub enum ConfigErrorView {
    EnvFile(Seq<char>),
    MissingVariable(Seq<char>),
    InvalidCoin { variable: Seq<char>, position: nat, source: MarketCoinError },
    DuplicateCoin { variable: Seq<char>, coin: Seq<char> },
    InvalidPositiveInteger { variable: Seq<char>, value: Seq<char> },
    InvalidBoolean { variable: Seq<char>, value: Seq<char> },
    DataDirectoryMustBeAbsolute(Seq<char>),
}

impl View for ConfigError {
    type V = ConfigErrorView;

    open spec fn view(&self) -> ConfigErrorView {
        match *self {
            ConfigError::EnvFile(error) => ConfigErrorView::EnvFile(error@),
            ConfigError::MissingVariable(variable) => ConfigErrorView::MissingVariable(variable@),
            ConfigError::InvalidCoin { variable, position, source } =>
                ConfigErrorView::InvalidCoin {
                variable: variable@,
                position: position as nat,
                source,
            },
            ConfigError::DuplicateCoin { variable, coin } => ConfigErrorView::DuplicateCoin {
                variable: variable@,
                coin: coin@,
            },
            ConfigError::InvalidPositiveInteger { variable, value } =>
                ConfigErrorView::InvalidPositiveInteger { variable: variable@, value: value@ },
            ConfigError::InvalidBoolean { variable, value } => ConfigErrorView::InvalidBoolean {
                variable: variable@,
                value: value@,
            },
            ConfigError::DataDirectoryMustBeAbsolute(path) =>
                ConfigErrorView::DataDirectoryMustBeAbsolute(path@),
        }
    }
}

impl ConfigErrorView {
    /// The message of the error.
    pub open spec fn message(self) -> Seq<char> {
        match self {
            ConfigErrorView::EnvFile(error) => "failed to load backend/.env: "@ + error,
            ConfigErrorView::MissingVariable(variable) => variable
                + " is not set; copy backend/.env.example to backend/.env"@,
            ConfigErrorView::InvalidCoin { variable, position, source } => "invalid "@ + variable
                + " entry "@ + decimal(position) + ": "@ + source.message(),
            ConfigErrorView::DuplicateCoin { variable, coin } => "duplicate "@ + variable
                + " entry: "@ + coin,
            ConfigErrorView::InvalidPositiveInteger { variable, value } => variable
                + " must be a positive integer, received "@ + debug_rendering(value),
            ConfigErrorView::InvalidBoolean { variable, value } => variable
                + " must be true or false, received "@ + debug_rendering(value),
            ConfigErrorView::DataDirectoryMustBeAbsolute(path) =>
                "DATA_DIR must be an absolute path outside the repository, received "@
                + debug_rendering(path),
        }
    }
}

impl ConfigError {
    pub fn to_text(&self) -> (text: String)
        ensures
            text@ == self@.message(),
    {
        match self {
            ConfigError::EnvFile(error) => {
                let mut text: String = "failed to load backend/.env: ".to_owned();
                text.append(error.as_str());
                text
            },
            ConfigError::MissingVariable(variable) => {
                let mut text: String = (*variable).to_owned();
                text.append(" is not set; copy backend/.env.example to backend/.env");
                text
            },
            ConfigError::InvalidCoin { variable, position, source } => {
                let mut text: String = "invalid ".to_owned();
                text.append(*variable);
                text.append(" entry ");
                text.append(decimal_text(*position as u128).as_str());
                text.append(": ");
                text.append(source.to_text().as_str());
                text
            },
            ConfigError::DuplicateCoin { variable, coin } => {
                let mut text: String = "duplicate ".to_owned();
                text.append(*variable);
                text.append(" entry: ");
                text.append(coin.as_str());
                text
            },
            ConfigError::InvalidPositiveInteger { variable, value } => {
                let mut text: String = (*variable).to_owned();
                text.append(" must be a positive integer, received ");
                text.append(debug_text(value.as_str()).as_str());
                text
            },
            ConfigError::InvalidBoolean { variable, value } => {
                let mut text: String = (*variable).to_owned();
                text.append(" must be true or false, received ");
                text.append(debug_text(value.as_str()).as_str());
                text
            },
            ConfigError::DataDirectoryMustBeAbsolute(path) => {
                let mut text: String =
                    "DATA_DIR must be an absolute path outside the repository, received ".to_owned();
                text.append(debug_text(path.as_str()).as_str());
                text
            },
        }
    }
}

/// A positive number up to a limit.
pub open spec fn positive_reading(variable: Seq<char>, raw: Seq<char>, limit: u64) -> Result<
    u64,
    ConfigErrorView,
> {
    match unsigned_within(raw, limit) {
        Some(value) => if value > 0 {
            Ok(value)
        } else {
            Err(ConfigErrorView::InvalidPositiveInteger { variable, value: raw })
        },
        None => Err(ConfigErrorView::InvalidPositiveInteger { variable, value: raw }),
    }
}

/// A positive number, or a default where the variable is absent.
pub open spec fn positive_or_default(
    variable: Seq<char>,
    value: VariableView,
    limit: u64,
    default: u64,
) -> Result<u64, ConfigErrorView> {
    match value {
        VariableView::Present(raw) => positive_reading(variable, raw, limit),
        VariableView::Absent => Ok(default),
        VariableView::NotUnicode => Err(
            ConfigErrorView::InvalidPositiveInteger { variable, value: "<non-unicode>"@ },
        ),
    }
}

fn positive_number(variable: &'static str, raw: &str, limit: u64) -> (result: Result<
    u64,
    ConfigError,
>)
    ensures
        positive_reading(variable@, raw@, limit) == (match result {
            Ok(value) => Ok::<u64, ConfigErrorView>(value),
            Err(error) => Err(error@),
        }),
{
    match parse_unsigned(raw, limit) {
        Some(value) => if value > 0 {
            Ok(value)
        } else {
            Err(ConfigError::InvalidPositiveInteger { variable, value: raw.to_owned() })
        },
        None => Err(ConfigError::InvalidPositiveInteger { variable, value: raw.to_owned() }),
    }
}

/// Reads a positive number.
pub fn parse_positive_usize(variable: &'static str, raw: &str) -> (result: Result<
    usize,
    ConfigError,
>)
    ensures
        positive_reading(variable@, raw@, usize::MAX as u64) == (match result {
            Ok(value) => Ok::<u64, ConfigErrorView>(value as u64),
            Err(error) => Err(error@),
        }),
{
    match positive_number(variable, raw, usize::MAX as u64) {
        Ok(value) => Ok(value as usize),
        Err(error) => Err(error),
    }
}

/// Reads a positive number, or takes a default where the variable is absent.
pub fn optional_positive_u64(variable: &'static str, value: &Variable, default: u64) -> (result:
    Result<u64, ConfigError>)
    ensures
        positive_or_default(variable@, value@, u64::MAX, default) == (match result {
            Ok(value) => Ok::<u64, ConfigErrorView>(value),
            Err(error) => Err(error@),
        }),
{
    match value {
        Variable::Present(raw) => positive_number(variable, raw.as_str(), u64::MAX),
        Variable::Absent => Ok(default),
        Variable::NotUnicode => Err(
            ConfigError::InvalidPositiveInteger { variable, value: "<non-unicode>".to_owned() },
        ),
    }
}

/// Reads a positive number, or takes a default where the variable is absent.
pub fn optional_positive_usize(
    variable: &'static str,
    value: &Variable,
    default: usize,
) -> (result: Result<usize, ConfigError>)
    ensures
        positive_or_default(variable@, value@, usize::MAX as u64, default as u64) == (match result {
            Ok(value) => Ok::<u64, ConfigErrorView>(value as u64),
            Err(error) => Err(error@),
        }),
{
    match value {
        Variable::Present(raw) => parse_positive_usize(variable, raw.as_str()),
        Variable::Absent => Ok(default),
        Variable::NotUnicode => Err(
            ConfigError::InvalidPositiveInteger { variable, value: "<non-unicode>".to_owned() },
        ),
    }
}

/// A truth value, or a default where the variable is absent.
pub open spec fn bool_or_default(variable: Seq<char>, value: VariableView, default: bool) -> Result<
    bool,
    ConfigErrorView,
> {
    match value {
        VariableView::Present(raw) => if raw == "true"@ {
            Ok(true)
        } else if raw == "false"@ {
            Ok(false)
        } else {
            Err(ConfigErrorView::InvalidBoolean { variable, value: raw })
        },
        VariableView::Absent => Ok(default),
        VariableView::NotUnicode => Err(
            ConfigErrorView::InvalidBoolean { variable, value: "<non-unicode>"@ },
        ),
    }
}

/// Reads a truth value, or takes a default where the variable is absent.
pub fn optional_bool(variable: &'static str, value: &Variable, default: bool) -> (result: Result<
    bool,
    ConfigError,
>)
    ensures
        bool_or_default(variable@, value@, default) == (match result {
            Ok(value) => Ok::<bool, ConfigErrorView>(value),
            Err(error) => Err(error@),
        }),
{
    match value {
        Variable::Present(raw) => if same_text(raw.as_str(), "true") {
            Ok(true)
        } else if same_text(raw.as_str(), "false") {
            Ok(false)
        } else {
            Err(ConfigError::InvalidBoolean { variable, value: raw.clone() })
        },
        Variable::Absent => Ok(default),
        Variable::NotUnicode => Err(
            ConfigError::InvalidBoolean { variable, value: "<non-unicode>".to_owned() },
        ),
    }
}

/// The market coins of entries: each is trimmed, must be a coin, and may stand only once.
pub open spec fn coins_reading(variable: Seq<char>, entries: Seq<Seq<char>>) -> Result<
    Seq<Seq<char>>,
    ConfigErrorView,
>
    decreases entries.len(),
{
    if entries.len() == 0 {
        Ok(Seq::empty())
    } else {
        match coins_reading(variable, entries.drop_last()) {
            Err(error) => Err(error),
            Ok(earlier) => {
                let entry = trimmed(entries.last());
                match market_coin_error(entry) {
                    Some(source) => Err(
                        ConfigErrorView::InvalidCoin { variable, position: entries.len(), source },
                    ),
                    None => if earlier.contains(entry) {
                        Err(ConfigErrorView::DuplicateCoin { variable, coin: entry })
                    } else {
                        Ok(earlier.push(entry))
                    },
                }
            },
        }
    }
}

proof fn lemma_first_failure(variable: Seq<char>, entries: Seq<Seq<char>>, length: int)
    requires
        0 <= length <= entries.len(),
        coins_reading(variable, entries.take(length)) is Err,
    ensures
        coins_reading(variable, entries) == coins_reading(variable, entries.take(length)),
    decreases entries.len(),
{
    if length == entries.len() {
        assert(entries.take(length) =~= entries);
    } else {
        assert(entries.drop_last().take(length) =~= entries.take(length));
        lemma_first_failure(variable, entries.drop_last(), length);
    }
}

/// The models of market coins.
pub open spec fn coin_views(coins: Seq<MarketCoin>) -> Seq<Seq<char>> {
    coins.map_values(|coin: MarketCoin| coin@)
}

/// Whether a coin stands among others.
fn among(coins: &Vec<MarketCoin>, coin: &MarketCoin) -> (found: bool)
    ensures
        found == coin_views(coins@).contains(coin@),
{
    let mut i: usize = 0;
    while i < coins.len()
        invariant
            i <= coins.len(),
            forall|j: int| 0 <= j < i ==> (#[trigger] coin_views(coins@)[j]) != coin@,
        decreases coins.len() - i,
    {
        if same_text(coins[i].as_str(), coin.as_str()) {
            assert(coin_views(coins@)[i as int] == coin@);
            return true;
        }
        assert(coin_views(coins@)[i as int] == coins@[i as int]@);
        i = i + 1;
    }
    false
}

/// Reads market coins that commas separate.
pub fn parse_market_coins(variable: &'static str, raw: &str) -> (result: Result<
    Vec<MarketCoin>,
    ConfigError,
>)
    ensures
        coins_reading(variable@, split(raw@, ',')) == (match result {
            Ok(coins) => Ok::<Seq<Seq<char>>, ConfigErrorView>(coin_views(coins@)),
            Err(error) => Err(error@),
        }),
{
    let entries: Vec<String> = split_text(raw, ',');
    let ghost parts = split(raw@, ',');
    let mut coins: Vec<MarketCoin> = Vec::new();
    let mut i: usize = 0;
    proof {
        assert(parts.take(0) =~= Seq::<Seq<char>>::empty());
        assert(coin_views(coins@) =~= Seq::<Seq<char>>::empty());
    }
    while i < entries.len()
        invariant
            i <= entries.len(),
            parts == split(raw@, ','),
            entries@.map_values(|part: String| part@) == parts,
            coins_reading(variable@, parts.take(i as int)) == Ok::<
                Seq<Seq<char>>,
                ConfigErrorView,
            >(coin_views(coins@)),
        decreases entries.len() - i,
    {
        let ghost next = parts.take(i + 1);
        proof {
            assert(parts[i as int] == entries@.map_values(|part: String| part@)[i as int]);
            assert(parts[i as int] == entries@[i as int]@);
            assert(next.drop_last() =~= parts.take(i as int));
            assert(next.last() == entries@[i as int]@);
            assert(next.len() == i + 1);
        }
        let entry: String = trim_text(entries[i].as_str());
        let coin: MarketCoin = match MarketCoin::try_new(entry.as_str()) {
            Ok(coin) => coin,
            Err(source) => {
                proof {
                    lemma_first_failure(variable@, parts, i + 1);
                }
                return Err(ConfigError::InvalidCoin { variable, position: i + 1, source });
            },
        };
        if among(&coins, &coin) {
            proof {
                lemma_first_failure(variable@, parts, i + 1);
            }
            return Err(ConfigError::DuplicateCoin { variable, coin });
        }
        let ghost earlier = coins@;
        let ghost model = coin@;
        coins.push(coin);
        assert(coin_views(coins@) =~= coin_views(earlier).push(model));
        i = i + 1;
    }
    assert(parts.take(i as int) =~= parts);
    Ok(coins)
}

/// The settings of the trader.
#[derive(Debug, Eq, PartialEq)]
pub struct TraderConfig {
    pub market_coins: Vec<MarketCoin>,
    pub enable_hyperliquid: bool,
    pub trade_dedup_capacity: usize,
    pub data_dir: String,
    pub recorder_queue_capacity: usize,
    pub capture_duration_seconds: u64,
}

/// The model of `TraderConfig`.
pub struct ConfigView {
    pub market_coins: Seq<Seq<char>>,
    pub enable_hyperliquid: bool,
    pub trade_dedup_capacity: usize,
    pub data_dir: Seq<char>,
    pub recorder_queue_capacity: usize,
    pub capture_duration_seconds: u64,
}

impl View for TraderConfig {
    type V = ConfigView;

    open spec fn view(&self) -> ConfigView {
        ConfigView {
            market_coins: coin_views(self.market_coins@),
            enable_hyperliquid: self.enable_hyperliquid,
            trade_dedup_capacity: self.trade_dedup_capacity,
            data_dir: self.data_dir@,
            recorder_queue_capacity: self.recorder_queue_capacity,
            capture_duration_seconds: self.capture_duration_seconds,
        }
    }
}

/// A variable that must be there.
pub open spec fn required(variable: Seq<char>, value: VariableView) -> Result<
    Seq<char>,
    ConfigErrorView,
> {
    match value {
        VariableView::Present(raw) => Ok(raw),
        _ => Err(ConfigErrorView::MissingVariable(variable)),
    }
}

/// A path that must be there and absolute.
pub open spec fn absolute_path(variable: Seq<char>, value: VariableView) -> Result<
    Seq<char>,
    ConfigErrorView,
> {
    match required(variable, value) {
        Err(error) => Err(error),
        Ok(path) => if path.len() > 0 && path[0] == '/' {
            Ok(path)
        } else {
            Err(ConfigErrorView::DataDirectoryMustBeAbsolute(path))
        },
    }
}

/// The settings that the environment gives. Of several faults the first counts, in the order
/// in which the variables are read; the coins are read last.
pub open spec fn settings(environment: EnvironmentView) -> Result<ConfigView, ConfigErrorView> {
    match required("MARKET_COINS"@, environment.market_coins) {
        Err(error) => Err(error),
        Ok(raw) => match bool_or_default(
            "ENABLE_HYPERLIQUID"@,
            environment.enable_hyperliquid,
            true,
        ) {
            Err(error) => Err(error),
            Ok(enable_hyperliquid) => match positive_or_default(
                "TRADE_DEDUP_CAPACITY"@,
                environment.trade_dedup_capacity,
                usize::MAX as u64,
                DEFAULT_TRADE_DEDUP_CAPACITY as u64,
            ) {
                Err(error) => Err(error),
                Ok(trade_dedup_capacity) => match absolute_path(
                    "DATA_DIR"@,
                    environment.data_dir,
                ) {
                    Err(error) => Err(error),
                    Ok(data_dir) => match positive_or_default(
                        "RECORDER_QUEUE_CAPACITY"@,
                        environment.recorder_queue_capacity,
                        usize::MAX as u64,
                        DEFAULT_RECORDER_QUEUE_CAPACITY as u64,
                    ) {
                        Err(error) => Err(error),
                        Ok(recorder_queue_capacity) => match positive_or_default(
                            "CAPTURE_DURATION_SECONDS"@,
                            environment.capture_duration_seconds,
                            u64::MAX,
                            DEFAULT_CAPTURE_DURATION_SECONDS,
                        ) {
                            Err(error) => Err(error),
                            Ok(capture_duration_seconds) => match coins_reading(
                                "MARKET_COINS"@,
                                split(raw, ','),
                            ) {
                                Err(error) => Err(error),
                                Ok(market_coins) => Ok(
                                    ConfigView {
                                        market_coins,
                                        enable_hyperliquid,
                                        trade_dedup_capacity: trade_dedup_capacity as usize,
                                        data_dir,
                                        recorder_queue_capacity: recorder_queue_capacity as usize,
                                        capture_duration_seconds,
                                    },
                                ),
                            },
                        },
                    },
                },
            },
        },
    }
}

impl TraderConfig {
    /// Reads the settings from the environment.
    pub fn load(environment: Environment) -> (result: Result<Self, ConfigError>)
        ensures
            settings(environment@) == (match result {
                Ok(config) => Ok::<ConfigView, ConfigErrorView>(config@),
                Err(error) => Err(error@),
            }),
    {
        let market_coins: String = match environment.market_coins {
            Variable::Present(raw) => raw,
            _ => return Err(ConfigError::MissingVariable("MARKET_COINS")),
        };
        let enable_hyperliquid: bool = match optional_bool(
            "ENABLE_HYPERLIQUID",
            &environment.enable_hyperliquid,
            true,
        ) {
            Ok(value) => value,
            Err(error) => return Err(error),
        };
        let trade_dedup_capacity: usize = match optional_positive_usize(
            "TRADE_DEDUP_CAPACITY",
            &environment.trade_dedup_capacity,
            DEFAULT_TRADE_DEDUP_CAPACITY,
        ) {
            Ok(value) => value,
            Err(error) => return Err(error),
        };
        let data_dir: String = match environment.data_dir {
            Variable::Present(raw) => raw,
            _ => return Err(ConfigError::MissingVariable("DATA_DIR")),
        };
        if data_dir.as_str().unicode_len() == 0 || data_dir.as_str().get_char(0) != '/' {
            return Err(ConfigError::DataDirectoryMustBeAbsolute(data_dir));
        }
        let recorder_queue_capacity: usize = match optional_positive_usize(
            "RECORDER_QUEUE_CAPACITY",
            &environment.recorder_queue_capacity,
            DEFAULT_RECORDER_QUEUE_CAPACITY,
        ) {
            Ok(value) => value,
            Err(error) => return Err(error),
        };
        let capture_duration_seconds: u64 = match optional_positive_u64(
            "CAPTURE_DURATION_SECONDS",
            &environment.capture_duration_seconds,
            DEFAULT_CAPTURE_DURATION_SECONDS,
        ) {
            Ok(value) => value,
            Err(error) => return Err(error),
        };
        let market_coins: Vec<MarketCoin> = match parse_market_coins(
            "MARKET_COINS",
            market_coins.as_str(),
        ) {
            Ok(coins) => coins,
            Err(error) => return Err(error),
        };
        Ok(
            TraderConfig {
                market_coins,
                enable_hyperliquid,
                trade_dedup_capacity,
                data_dir,
                recorder_queue_capacity,
                capture_duration_seconds,
            },
        )
    }
}

proof fn lemma_coins_distinct(variable: Seq<char>, entries: Seq<Seq<char>>)
    requires
        coins_reading(variable, entries) is Ok,
    ensures
        coins_reading(variable, entries)->Ok_0.no_duplicates(),
        coins_reading(variable, entries)->Ok_0.len() == entries.len(),
        forall|i: int|
            0 <= i < entries.len() ==> market_coin_error(
                #[trigger] coins_reading(variable, entries)->Ok_0[i],
            ) is None,
    decreases entries.len(),
{
    if entries.len() > 0 {
        lemma_coins_distinct(variable, entries.drop_last());
        let earlier = coins_reading(variable, entries.drop_last())->Ok_0;
        let coins = coins_reading(variable, entries)->Ok_0;
        assert forall|i: int, j: int|
            0 <= i < coins.len() && 0 <= j < coins.len() && i != j implies coins[i]
            != coins[j] by {
            if i == coins.len() - 1 {
                assert(earlier.contains(earlier[j]));
            }
            if j == coins.len() - 1 {
                assert(earlier.contains(earlier[i]));
            }
        }
    }
}

proof fn lemma_split_has_parts(text: Seq<char>, separator: char)
    ensures
        split(text, separator).len() > 0,
    decreases text.len(),
{
    if text.len() > 0 {
        lemma_split_has_parts(text.drop_last(), separator);
    }
}

/// Settings that were read can be used: there is at least one market, every market is a valid
/// coin and stands once, the capacities and the duration are positive, and the directory is
/// absolute.
pub proof fn lemma_settings_usable(environment: EnvironmentView)
    requires
        settings(environment) is Ok,
    ensures
        settings(environment)->Ok_0.market_coins.len() > 0,
        settings(environment)->Ok_0.market_coins.no_duplicates(),
        forall|i: int|
            0 <= i < settings(environment)->Ok_0.market_coins.len() ==> market_coin_error(
                #[trigger] settings(environment)->Ok_0.market_coins[i],
            ) is None,
        settings(environment)->Ok_0.trade_dedup_capacity > 0,
        settings(environment)->Ok_0.recorder_queue_capacity > 0,
        settings(environment)->Ok_0.capture_duration_seconds > 0,
        settings(environment)->Ok_0.data_dir.len() > 0,
        settings(environment)->Ok_0.data_dir[0] == '/',
{
    let raw = environment.market_coins->Present_0;
    lemma_split_has_parts(raw, ',');
    lemma_coins_distinct("MARKET_COINS"@, split(raw, ','));
}

proof fn lemma_coins_follow_entries(variable: Seq<char>, entries: Seq<Seq<char>>)
    requires
        coins_reading(variable, entries) is Ok,
    ensures
        coins_reading(variable, entries)->Ok_0.len() == entries.len(),
        forall|i: int|
            0 <= i < entries.len() ==> #[trigger] coins_reading(variable, entries)->Ok_0[i]
                == trimmed(entries[i]),
    decreases entries.len(),
{
    if entries.len() > 0 {
        lemma_coins_follow_entries(variable, entries.drop_last());
        let earlier = coins_reading(variable, entries.drop_last())->Ok_0;
        let coins = coins_reading(variable, entries)->Ok_0;
        assert forall|i: int| 0 <= i < entries.len() implies #[trigger] coins[i] == trimmed(
            entries[i],
        ) by {
            if i < earlier.len() {
                assert(coins[i] == earlier[i]);
                assert(entries.drop_last()[i] == entries[i]);
            }
        }
    }
}

/// Whether a number is the one that a variable writes, or the default where it is absent.
pub open spec fn number_follows(value: VariableView, default: u64, number: u64) -> bool {
    match value {
        VariableView::Present(raw) => unsigned_value(raw) == Some(number as nat) && number > 0,
        VariableView::Absent => number == default,
        VariableView::NotUnicode => false,
    }
}

/// Settings that were read are what the environment says, each by its own variable: the
/// coins are the entries between the commas of `MARKET_COINS`, in their order and without the
/// white space around them; what is absent takes its default, which is to follow
/// Hyperliquid, to tell a million trades apart, to queue 4096 events and to capture for two
/// hours.
pub proof fn lemma_settings_follow_environment(environment: EnvironmentView)
    requires
        settings(environment) is Ok,
    ensures
        ({
            let config = settings(environment)->Ok_0;
            &&& environment.market_coins matches VariableView::Present(raw)
            &&& config.market_coins.len() == split(raw, ',').len()
            &&& forall|i: int|
                0 <= i < config.market_coins.len() ==> #[trigger] config.market_coins[i]
                    == trimmed(split(raw, ',')[i])
            &&& environment.data_dir == VariableView::Present(config.data_dir)
            &&& config.enable_hyperliquid <==> environment.enable_hyperliquid
                == VariableView::Present("true"@) || environment.enable_hyperliquid
                == VariableView::Absent
            &&& !config.enable_hyperliquid <==> environment.enable_hyperliquid
                == VariableView::Present("false"@)
            &&& number_follows(
                environment.trade_dedup_capacity,
                1_000_000,
                config.trade_dedup_capacity as u64,
            )
            &&& number_follows(
                environment.recorder_queue_capacity,
                4_096,
                config.recorder_queue_capacity as u64,
            )
            &&& number_follows(
                environment.capture_duration_seconds,
                7_200,
                config.capture_duration_seconds,
            )
        }),
{
    let raw = environment.market_coins->Present_0;
    lemma_coins_follow_entries("MARKET_COINS"@, split(raw, ','));
    reveal_strlit("true");
    reveal_strlit("false");
    assert("true"@.len() == 4);
    assert("false"@.len() == 5);
}

} // verus!
