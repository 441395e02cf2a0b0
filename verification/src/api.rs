//! The answers of the HTTP price and ticker endpoints.

use vstd::prelude::*;
use crate::config::AppConfig;
use crate::state::{table_get, AppState, PriceData};
use crate::text::{copy_strings, texts};
use crate::tickers::{price_request_ticker, resolve_price_ticker};

verus! {

/// The answer to a price request.
pub enum PriceLookup {
    /// The request names no supported ticker; the supported tickers are listed.
    Unsupported { supported_tickers: Vec<String> },
    /// The latest quote of the ticker named.
    Found(PriceData),
    /// The ticker is supported but has no quote yet.
    NotAvailable { ticker: String },
}

/// The answer to a ticker listing request.
pub struct TickerOverview {
    pub supported_crypto_tickers: Vec<String>,
    pub supported_stock_tickers: Vec<String>,
    /// The tickers that have a quote, each once, in no promised order.
    pub available_tickers: Vec<String>,
    pub total_supported: usize,
    pub total_available: usize,
}

/// Answers a request for the price of `requested`, which is matched against the
/// supported tickers in lower and upper case.
pub fn get_price(requested: &str, state: &AppState, config: &AppConfig) -> (answer: PriceLookup)
    ensures
        match price_request_ticker(*config, requested@) {
            None => match answer {
                PriceLookup::Unsupported { supported_tickers } => supported_tickers@
                    == config.supported_crypto_tickers@ + config.supported_stock_tickers@,
                _ => false,
            },
            Some(t) => match table_get(state.price_view(), t) {
                Some(p) => answer == PriceLookup::Found(p),
                None => match answer {
                    PriceLookup::NotAvailable { ticker } => ticker@ == t,
                    _ => false,
                },
            },
        },
{
    match resolve_price_ticker(config, requested) {
        None => PriceLookup::Unsupported { supported_tickers: config.all_supported_tickers() },
        Some(ticker) => match state.get_price(ticker.as_str()) {
            Some(p) => PriceLookup::Found(p),
            None => PriceLookup::NotAvailable { ticker },
        },
    }
}

/// Answers a request for the ticker listing: the supported tickers of each kind,
/// the tickers that have a quote, and how many there are of each.
pub fn get_tickers(state: &AppState, config: &AppConfig) -> (overview: TickerOverview)
    ensures
        overview.supported_crypto_tickers@ == config.supported_crypto_tickers@,
        overview.supported_stock_tickers@ == config.supported_stock_tickers@,
        texts(overview.available_tickers@).no_duplicates(),
        texts(overview.available_tickers@).to_set() == state.price_view().dom(),
        overview.total_supported == config.supported().len(),
        overview.total_available == overview.available_tickers@.len(),
{
    let available_tickers = state.get_all_tickers();
    let all = config.all_supported_tickers();
    let total_available = available_tickers.len();
    TickerOverview {
        supported_crypto_tickers: copy_strings(&config.supported_crypto_tickers),
        supported_stock_tickers: copy_strings(&config.supported_stock_tickers),
        available_tickers,
        total_supported: all.len(),
        total_available,
    }
}

} // verus!
