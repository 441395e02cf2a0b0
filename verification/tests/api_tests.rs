use asset_price_notifier::api::{get_price, get_tickers, PriceLookup};
use asset_price_notifier::config::{AppConfig, Settings};
use asset_price_notifier::state::{AppState, PriceData};
use asset_price_notifier::tickers::{resolve_price_ticker, resolve_subscription};

fn strings(v: &[&str]) -> Vec<String> {
    v.iter().map(|s| s.to_string()).collect()
}

fn config(crypto: &str, stock: &str) -> AppConfig {
    AppConfig::from_settings(&Settings {
        host: None,
        port: None,
        supported_crypto_tickers: Some(crypto.to_string()),
        supported_stock_tickers: Some(stock.to_string()),
        poll_interval_secs: None,
        coingecko_api_url: None,
        stock_api_url: None,
        max_connections_per_ticker: None,
    })
    .unwrap()
}

fn quote(ticker: &str, kind: &str) -> PriceData {
    PriceData {
        ticker: ticker.to_string(),
        asset_type: kind.to_string(),
        price_usd_bits: 42.0f64.to_bits(),
        change_24h_bits: (-0.5f64).to_bits(),
        last_updated: "now".to_string(),
    }
}

#[test]
fn price_ticker_is_matched_in_either_case() {
    let c = config("bitcoin", "AAPL");
    assert_eq!(resolve_price_ticker(&c, "BITCOIN"), Some("bitcoin".to_string()));
    assert_eq!(resolve_price_ticker(&c, "Bitcoin"), Some("bitcoin".to_string()));
    assert_eq!(resolve_price_ticker(&c, "aapl"), Some("AAPL".to_string()));
    assert_eq!(resolve_price_ticker(&c, "doge"), None);
}

#[test]
fn lower_case_stock_ticker_resolves_to_upper_case() {
    // A lower-case ticker configured as a stock is supported, but the request is
    // answered for the upper-case form, which is not the configured one.
    let mut c = config("bitcoin", "AAPL");
    c.supported_stock_tickers = strings(&["msft"]);
    assert_eq!(resolve_price_ticker(&c, "msft"), Some("MSFT".to_string()));
}

#[test]
fn subscription_resolution() {
    let c = config("bitcoin", "AAPL");
    assert_eq!(
        resolve_subscription(Some(strings(&["aapl", "x", "BitCoin", "AAPL"])), &c),
        strings(&["AAPL", "bitcoin", "AAPL"])
    );
    assert_eq!(resolve_subscription(Some(vec![]), &c), Vec::<String>::new());
    assert_eq!(resolve_subscription(None, &c), strings(&["bitcoin", "AAPL"]));
}

#[test]
fn unsupported_ticker_lists_the_supported_ones() {
    let c = config("bitcoin", "AAPL");
    let s = AppState::new();
    match get_price("doge", &s, &c) {
        PriceLookup::Unsupported { supported_tickers } => {
            assert_eq!(supported_tickers, strings(&["bitcoin", "AAPL"]))
        }
        _ => panic!("doge is not supported"),
    }
}

#[test]
fn supported_ticker_without_quote_is_not_available() {
    let c = config("bitcoin", "AAPL");
    let s = AppState::new();
    match get_price("Bitcoin", &s, &c) {
        PriceLookup::NotAvailable { ticker } => assert_eq!(ticker, "bitcoin"),
        _ => panic!("no quote is held"),
    }
}

#[test]
fn quoted_ticker_is_found() {
    let c = config("bitcoin", "AAPL");
    let mut s = AppState::new();
    s.update_price("AAPL".to_string(), quote("AAPL", "stock"));
    match get_price("aapl", &s, &c) {
        PriceLookup::Found(p) => assert_eq!(p, quote("AAPL", "stock")),
        _ => panic!("the quote is held"),
    }
}

#[test]
fn ticker_overview_counts() {
    let c = config("bitcoin,ethereum", "AAPL");
    let mut s = AppState::new();
    s.update_price("bitcoin".to_string(), quote("bitcoin", "crypto"));
    let o = get_tickers(&s, &c);
    assert_eq!(o.supported_crypto_tickers, strings(&["bitcoin", "ethereum"]));
    assert_eq!(o.supported_stock_tickers, strings(&["AAPL"]));
    assert_eq!(o.available_tickers, strings(&["bitcoin"]));
    assert_eq!(o.total_supported, 3);
    assert_eq!(o.total_available, 1);
}
