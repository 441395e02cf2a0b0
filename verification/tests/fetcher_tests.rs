use asset_price_notifier::config::{AppConfig, Settings};
use asset_price_notifier::fetcher::{
    change_percent_text, crypto_prices_url, crypto_quotes, stock_quote_url, CryptoQuote,
    QuoteProblem,
};
use asset_price_notifier::state::PriceData;

fn config() -> AppConfig {
    AppConfig::from_settings(&Settings {
        host: None,
        port: None,
        supported_crypto_tickers: Some("bitcoin,ethereum".to_string()),
        supported_stock_tickers: None,
        poll_interval_secs: None,
        coingecko_api_url: None,
        stock_api_url: None,
        max_connections_per_ticker: None,
    })
    .unwrap()
}

#[test]
fn crypto_url_names_every_crypto_ticker() {
    assert_eq!(
        crypto_prices_url(&config()),
        "https://api.coingecko.com/api/v3/simple/price?ids=bitcoin,ethereum&vs_currencies=usd&include_24hr_change=true"
    );
}

#[test]
fn stock_url_names_the_ticker() {
    assert_eq!(
        stock_quote_url(&config(), "AAPL"),
        "https://www.alphavantage.co/query?function=GLOBAL_QUOTE&symbol=AAPL&apikey=demo"
    );
}

#[test]
fn change_percent_loses_its_percent_signs() {
    assert_eq!(change_percent_text("-1.2345%"), "-1.2345");
    assert_eq!(change_percent_text("0.5"), "0.5");
    assert_eq!(change_percent_text("2%%"), "2");
    assert_eq!(change_percent_text("-1.2345%").parse::<f64>().unwrap(), -1.2345);
}

#[test]
fn quotes_are_built_from_entries() {
    let entries = vec![
        CryptoQuote { ticker: "bitcoin".to_string(), usd_bits: 65000.5f64.to_bits(), usd_24h_change_bits: 2.5f64.to_bits() },
        CryptoQuote { ticker: "ethereum".to_string(), usd_bits: 3000.0f64.to_bits(), usd_24h_change_bits: (-1.0f64).to_bits() },
    ];
    let now = "2024-05-01T12:00:00+00:00".to_string();
    let quotes = crypto_quotes(entries, &now);
    assert_eq!(quotes.len(), 2);
    assert_eq!(quotes[0], PriceData::crypto("bitcoin".to_string(), 65000.5f64.to_bits(), 2.5f64.to_bits(), now.clone()));
    assert_eq!(quotes[1].ticker, "ethereum");
    assert_eq!(quotes[1].asset_type, "crypto");
    assert_eq!(f64::from_bits(quotes[1].change_24h_bits), -1.0);
    assert_eq!(quotes[1].last_updated, now);
}

#[test]
fn stock_quote_is_marked_stock() {
    let p = PriceData::stock("AAPL".to_string(), 1.0f64.to_bits(), 0.0f64.to_bits(), "t".to_string());
    assert_eq!(p.asset_type, "stock");
    assert_eq!(p.ticker, "AAPL");
}

#[test]
fn problem_messages() {
    assert_eq!(QuoteProblem::InvalidPrice("AAPL".to_string()).message(), "Invalid price format for AAPL");
    assert_eq!(
        QuoteProblem::InvalidChangePercent("MSFT".to_string()).message(),
        "Invalid change percent format for MSFT"
    );
    assert_eq!(
        QuoteProblem::CryptoStatus("429 Too Many Requests".to_string()).message(),
        "CoinGecko API returned status: 429 Too Many Requests"
    );
}
