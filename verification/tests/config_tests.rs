use asset_price_notifier::config::{AppConfig, ConfigError, Settings};
use asset_price_notifier::config::parse_ticker_list;

fn no_settings() -> Settings {
    Settings {
        host: None,
        port: None,
        supported_crypto_tickers: None,
        supported_stock_tickers: None,
        poll_interval_secs: None,
        coingecko_api_url: None,
        stock_api_url: None,
        max_connections_per_ticker: None,
    }
}

fn strings(v: &[&str]) -> Vec<String> {
    v.iter().map(|s| s.to_string()).collect()
}

#[test]
fn defaults_apply_when_nothing_is_set() {
    let c = AppConfig::from_settings(&no_settings()).unwrap();
    assert_eq!(c.host, "127.0.0.1");
    assert_eq!(c.port, 8080);
    assert_eq!(
        c.supported_crypto_tickers,
        strings(&["bitcoin", "ethereum", "cardano", "polkadot", "chainlink"])
    );
    assert_eq!(c.supported_stock_tickers, strings(&["AAPL", "GOOGL", "MSFT", "AMZN", "TSLA"]));
    assert_eq!(c.poll_interval_secs, 30);
    assert_eq!(c.coingecko_api_url, "https://api.coingecko.com/api/v3");
    assert_eq!(c.stock_api_url, "https://www.alphavantage.co");
    assert_eq!(c.max_connections_per_ticker, 100);
}

#[test]
fn settings_override_defaults() {
    let mut s = no_settings();
    s.host = Some("0.0.0.0".to_string());
    s.port = Some("+9000".to_string());
    s.supported_crypto_tickers = Some(" Bitcoin , DOGE".to_string());
    s.supported_stock_tickers = Some("aapl,msft ".to_string());
    s.poll_interval_secs = Some("5".to_string());
    s.coingecko_api_url = Some("http://cg".to_string());
    s.stock_api_url = Some("http://st".to_string());
    s.max_connections_per_ticker = Some("2".to_string());
    let c = AppConfig::from_settings(&s).unwrap();
    assert_eq!(c.host, "0.0.0.0");
    assert_eq!(c.port, 9000);
    assert_eq!(c.supported_crypto_tickers, strings(&["bitcoin", "doge"]));
    assert_eq!(c.supported_stock_tickers, strings(&["AAPL", "MSFT"]));
    assert_eq!(c.poll_interval_secs, 5);
    assert_eq!(c.coingecko_api_url, "http://cg");
    assert_eq!(c.stock_api_url, "http://st");
    assert_eq!(c.max_connections_per_ticker, 2);
}

#[test]
fn invalid_port_is_refused_first() {
    let mut s = no_settings();
    s.port = Some("eighty".to_string());
    s.poll_interval_secs = Some("x".to_string());
    let e = AppConfig::from_settings(&s).err().unwrap();
    assert_eq!(e, ConfigError::InvalidPort);
    assert_eq!(e.message(), "PORT must be a valid number");
}

#[test]
fn port_out_of_range_is_refused() {
    let mut s = no_settings();
    s.port = Some("65536".to_string());
    assert_eq!(AppConfig::from_settings(&s).err().unwrap(), ConfigError::InvalidPort);
    s.port = Some("65535".to_string());
    assert_eq!(AppConfig::from_settings(&s).unwrap().port, 65535);
    s.port = Some("-1".to_string());
    assert_eq!(AppConfig::from_settings(&s).err().unwrap(), ConfigError::InvalidPort);
    s.port = Some("".to_string());
    assert_eq!(AppConfig::from_settings(&s).err().unwrap(), ConfigError::InvalidPort);
}

#[test]
fn invalid_poll_interval_is_refused() {
    let mut s = no_settings();
    s.poll_interval_secs = Some(" 30".to_string());
    let e = AppConfig::from_settings(&s).err().unwrap();
    assert_eq!(e, ConfigError::InvalidPollInterval);
    assert_eq!(e.message(), "POLL_INTERVAL_SECS must be a valid number");
}

#[test]
fn invalid_max_connections_is_refused() {
    let mut s = no_settings();
    s.max_connections_per_ticker = Some("+".to_string());
    let e = AppConfig::from_settings(&s).err().unwrap();
    assert_eq!(e, ConfigError::InvalidMaxConnections);
    assert_eq!(e.message(), "MAX_CONNECTIONS_PER_TICKER must be a valid number");
}

#[test]
fn all_supported_tickers_lists_crypto_then_stock() {
    let c = AppConfig::from_settings(&no_settings()).unwrap();
    assert_eq!(
        c.all_supported_tickers(),
        strings(&[
            "bitcoin", "ethereum", "cardano", "polkadot", "chainlink", "AAPL", "GOOGL", "MSFT",
            "AMZN", "TSLA"
        ])
    );
}

#[test]
fn ticker_list_keeps_empty_pieces() {
    assert_eq!(parse_ticker_list("", false), strings(&[""]));
    assert_eq!(parse_ticker_list("a,,B", true), strings(&["A", "", "B"]));
    assert_eq!(parse_ticker_list("\tEth\n", false), strings(&["eth"]));
}
