//! The service configuration and how it is built from its textual settings.

use vstd::prelude::*;
use crate::text::{
    parse_unsigned, parsed_unsigned, split_char, split_on, texts, to_lower, to_upper, trim, trimmed,
    lowercase, uppercase,
};

verus! {

/// The configuration of the service.
#[derive(Clone, Debug)]
pub struct AppConfig {
    pub host: String,
    pub port: u16,
    pub supported_crypto_tickers: Vec<String>,
    pub supported_stock_tickers: Vec<String>,
    pub poll_interval_secs: u64,
    pub coingecko_api_url: String,
    pub stock_api_url: String,
    pub max_connections_per_ticker: usize,
}

/// The textual settings a configuration is built from; `None` where a setting is absent.
pub struct Settings {
    pub host: Option<String>,
    pub port: Option<String>,
    pub supported_crypto_tickers: Option<String>,
    pub supported_stock_tickers: Option<String>,
    pub poll_interval_secs: Option<String>,
    pub coingecko_api_url: Option<String>,
    pub stock_api_url: Option<String>,
    pub max_connections_per_ticker: Option<String>,
}

/// A setting that does not hold a valid number.
#[derive(PartialEq, Eq, Structural, Clone, Copy, Debug)]
pub enum ConfigError {
    InvalidPort,
    InvalidPollInterval,
    InvalidMaxConnections,
}

impl ConfigError {
    /// The message that names the setting at fault.
    pub fn message(&self) -> (m: String)
        ensures
            m@ == config_error_message(*self),
    {
        match self {
            ConfigError::InvalidPort => String::from_str("PORT must be a valid number"),
            ConfigError::InvalidPollInterval => String::from_str(
                "POLL_INTERVAL_SECS must be a valid number",
            ),
            ConfigError::InvalidMaxConnections => String::from_str(
                "MAX_CONNECTIONS_PER_TICKER must be a valid number",
            ),
        }
    }
}

pub open spec fn config_error_message(e: ConfigError) -> Seq<char> {
    match e {
        ConfigError::InvalidPort => "PORT must be a valid number"@,
        ConfigError::InvalidPollInterval => "POLL_INTERVAL_SECS must be a valid number"@,
        ConfigError::InvalidMaxConnections => "MAX_CONNECTIONS_PER_TICKER must be a valid number"@,
    }
}

/// The text of a setting, or the default where it is absent.
pub open spec fn setting_or(v: Option<String>, default: Seq<char>) -> Seq<char> {
    match v {
        Some(s) => s@,
        None => default,
    }
}

/// The tickers that a comma-separated list names: each piece trimmed, then
/// upper-cased (`upper`) or lower-cased.
pub open spec fn ticker_list(raw: Seq<char>, upper: bool) -> Seq<Seq<char>> {
    split_on(raw, ',').map_values(
        |p: Seq<char>|
            if upper {
                uppercase(trimmed(p))
            } else {
                lowercase(trimmed(p))
            },
    )
}

pub open spec fn default_port() -> Seq<char> {
    "8080"@
}

pub open spec fn default_poll_interval() -> Seq<char> {
    "30"@
}

pub open spec fn default_max_connections() -> Seq<char> {
    "100"@
}

/// The first setting, in the order port, poll interval, connection limit, that
/// does not hold a valid number.
pub open spec fn settings_error(s: Settings) -> Option<ConfigError> {
    if parsed_unsigned(setting_or(s.port, default_port()), u16::MAX as nat) is None {
        Some(ConfigError::InvalidPort)
    } else if parsed_unsigned(setting_or(s.poll_interval_secs, default_poll_interval()), u64::MAX as nat) is None {
        Some(ConfigError::InvalidPollInterval)
    } else if parsed_unsigned(setting_or(s.max_connections_per_ticker, default_max_connections()), usize::MAX as nat) is None {
        Some(ConfigError::InvalidMaxConnections)
    } else {
        None
    }
}

/// `c` is the configuration that the settings describe, every absent setting
/// taking its default.
pub open spec fn describes(c: AppConfig, s: Settings) -> bool {
    &&& c.host@ == setting_or(s.host, "127.0.0.1"@)
    &&& Some(c.port as nat) == parsed_unsigned(setting_or(s.port, default_port()), u16::MAX as nat)
    &&& texts(c.supported_crypto_tickers@) == ticker_list(
        setting_or(s.supported_crypto_tickers, "bitcoin,ethereum,cardano,polkadot,chainlink"@),
        false,
    )
    &&& texts(c.supported_stock_tickers@) == ticker_list(
        setting_or(s.supported_stock_tickers, "AAPL,GOOGL,MSFT,AMZN,TSLA"@),
        true,
    )
    &&& Some(c.poll_interval_secs as nat) == parsed_unsigned(
        setting_or(s.poll_interval_secs, default_poll_interval()),
        u64::MAX as nat,
    )
    &&& c.coingecko_api_url@ == setting_or(s.coingecko_api_url, "https://api.coingecko.com/api/v3"@)
    &&& c.stock_api_url@ == setting_or(s.stock_api_url, "https://www.alphavantage.co"@)
    &&& Some(c.max_connections_per_ticker as nat) == parsed_unsigned(
        setting_or(s.max_connections_per_ticker, default_max_connections()),
        usize::MAX as nat,
    )
}

/// Parses a comma-separated ticker list: each piece is trimmed, then upper-cased
/// (`upper`) or lower-cased.
pub fn parse_ticker_list(raw: &str, upper: bool) -> (r: Vec<String>)
    ensures
        texts(r@) == ticker_list(raw@, upper),
{
    let parts = split_char(raw, ',');
    let mut r: Vec<String> = Vec::new();
    let mut i: usize = 0;
    while i < parts.len()
        invariant
            i <= parts@.len(),
            texts(parts@) == split_on(raw@, ','),
            texts(r@) == ticker_list(raw@, upper).take(i as int),
        decreases parts.len() - i,
    {
        let t = trim(parts[i].as_str());
        let cased = if upper {
            to_upper(t.as_str())
        } else {
            to_lower(t.as_str())
        };
        assert(texts(parts@)[i as int] == parts@[i as int]@);
        assert(ticker_list(raw@, upper)[i as int] == cased@);
        let ghost before = r@;
        r.push(cased);
        assert(r@ == before.push(cased));
        assert(texts(r@) =~= texts(before).push(cased@));
        assert(texts(r@) =~= ticker_list(raw@, upper).take(i + 1));
        i = i + 1;
    }
    assert(texts(r@) =~= ticker_list(raw@, upper));
    r
}

/// The text of a setting, or the default where it is absent.
fn text_or(v: &Option<String>, default: &str) -> (r: String)
    ensures
        r@ == setting_or(*v, default@),
{
    match v {
        Some(s) => s.clone(),
        None => String::from_str(default),
    }
}

impl AppConfig {
    /// Builds the configuration from its settings, each absent one taking its
    /// default; fails on the first numeric setting that is not a valid number.
    pub fn from_settings(s: &Settings) -> (r: Result<AppConfig, ConfigError>)
        ensures
            match r {
                Ok(c) => settings_error(*s) is None && describes(c, *s),
                Err(e) => settings_error(*s) == Some(e),
            },
    {
        let host = text_or(&s.host, "127.0.0.1");
        let port_text = text_or(&s.port, "8080");
        let port = match parse_unsigned(port_text.as_str(), 65535) {
            Some(p) => p as u16,
            None => {
                return Err(ConfigError::InvalidPort);
            },
        };
        let crypto_text = text_or(&s.supported_crypto_tickers, "bitcoin,ethereum,cardano,polkadot,chainlink");
        let supported_crypto_tickers = parse_ticker_list(crypto_text.as_str(), false);
        let stock_text = text_or(&s.supported_stock_tickers, "AAPL,GOOGL,MSFT,AMZN,TSLA");
        let supported_stock_tickers = parse_ticker_list(stock_text.as_str(), true);
        let poll_text = text_or(&s.poll_interval_secs, "30");
        let poll_interval_secs = match parse_unsigned(poll_text.as_str(), u64::MAX) {
            Some(p) => p,
            None => {
                return Err(ConfigError::InvalidPollInterval);
            },
        };
        let coingecko_api_url = text_or(&s.coingecko_api_url, "https://api.coingecko.com/api/v3");
        let stock_api_url = text_or(&s.stock_api_url, "https://www.alphavantage.co");
        let max_text = text_or(&s.max_connections_per_ticker, "100");
        let max_connections_per_ticker = match parse_unsigned(max_text.as_str(), usize::MAX as u64) {
            Some(m) => m as usize,
            None => {
                return Err(ConfigError::InvalidMaxConnections);
            },
        };
        Ok(AppConfig {
            host,
            port,
            supported_crypto_tickers,
            supported_stock_tickers,
            poll_interval_secs,
            coingecko_api_url,
            stock_api_url,
            max_connections_per_ticker,
        })
    }

    /// Every supported ticker: the crypto tickers, then the stock tickers.
    pub open spec fn supported(&self) -> Seq<Seq<char>> {
        texts(self.supported_crypto_tickers@) + texts(self.supported_stock_tickers@)
    }

    /// All supported tickers: the crypto tickers followed by the stock tickers.
    pub fn all_supported_tickers(&self) -> (all: Vec<String>)
        ensures
            all@ == self.supported_crypto_tickers@ + self.supported_stock_tickers@,
            texts(all@) == self.supported(),
    {
        let mut all: Vec<String> = Vec::new();
        let mut i: usize = 0;
        while i < self.supported_crypto_tickers.len()
            invariant
                i <= self.supported_crypto_tickers@.len(),
                all@ == self.supported_crypto_tickers@.take(i as int),
            decreases self.supported_crypto_tickers.len() - i,
        {
            all.push(self.supported_crypto_tickers[i].clone());
            assert(all@ =~= self.supported_crypto_tickers@.take(i + 1));
            i = i + 1;
        }
        let mut j: usize = 0;
        while j < self.supported_stock_tickers.len()
            invariant
                i == self.supported_crypto_tickers@.len(),
                j <= self.supported_stock_tickers@.len(),
                all@ == self.supported_crypto_tickers@.take(i as int) + self.supported_stock_tickers@.take(j as int),
            decreases self.supported_stock_tickers.len() - j,
        {
            all.push(self.supported_stock_tickers[j].clone());
            assert(all@ =~= self.supported_crypto_tickers@.take(i as int) + self.supported_stock_tickers@.take(j + 1));
            j = j + 1;
        }
        assert(all@ =~= self.supported_crypto_tickers@ + self.supported_stock_tickers@);
        assert(texts(all@) =~= self.supported());
        all
    }
}

} // verus!
