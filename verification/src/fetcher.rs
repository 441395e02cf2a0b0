//! What the price fetcher asks the quote services for, and how their answers
//! become quotes.

use vstd::prelude::*;
use crate::config::AppConfig;
use crate::state::PriceData;
use crate::text::{join_strings, joined, strip_trailing, strip_trailing_char, texts};

verus! {

/// One entry of the crypto service's answer: a coin and its two figures, held by
/// their IEEE-754 bit patterns.
pub struct CryptoQuote {
    pub ticker: String,
    pub usd_bits: u64,
    pub usd_24h_change_bits: u64,
}

/// A quote service answered with something that is no usable quote.
pub enum QuoteProblem {
    /// The crypto service answered with a status that is no success (its text).
    CryptoStatus(String),
    /// The stock service's price of the ticker is no number.
    InvalidPrice(String),
    /// The stock service's change percentage of the ticker is no number.
    InvalidChangePercent(String),
}

pub open spec fn quote_problem_message(p: QuoteProblem) -> Seq<char> {
    match p {
        QuoteProblem::CryptoStatus(status) => "CoinGecko API returned status: "@ + status@,
        QuoteProblem::InvalidPrice(ticker) => "Invalid price format for "@ + ticker@,
        QuoteProblem::InvalidChangePercent(ticker) => "Invalid change percent format for "@ + ticker@,
    }
}

impl QuoteProblem {
    /// The message that describes the problem.
    pub fn message(&self) -> (m: String)
        ensures
            m@ == quote_problem_message(*self),
    {
        match self {
            QuoteProblem::CryptoStatus(status) => String::from_str("CoinGecko API returned status: ").concat(
                status.as_str(),
            ),
            QuoteProblem::InvalidPrice(ticker) => String::from_str("Invalid price format for ").concat(
                ticker.as_str(),
            ),
            QuoteProblem::InvalidChangePercent(ticker) => String::from_str(
                "Invalid change percent format for ",
            ).concat(ticker.as_str()),
        }
    }
}

/// The address that asks the crypto service for the USD price and 24-hour change
/// of every supported crypto ticker.
pub open spec fn crypto_prices_address(config: AppConfig) -> Seq<char> {
    config.coingecko_api_url@ + "/simple/price?ids="@ + joined(texts(config.supported_crypto_tickers@), ","@)
        + "&vs_currencies=usd&include_24hr_change=true"@
}

/// The address that asks the stock service for the global quote of a ticker.
pub open spec fn stock_quote_address(config: AppConfig, ticker: Seq<char>) -> Seq<char> {
    config.stock_api_url@ + "/query?function=GLOBAL_QUOTE&symbol="@ + ticker + "&apikey="@ + "demo"@
}

/// The address that asks the crypto service for every supported crypto ticker.
pub fn crypto_prices_url(config: &AppConfig) -> (url: String)
    ensures
        url@ == crypto_prices_address(*config),
{
    let ids = join_strings(&config.supported_crypto_tickers, ",");
    let mut url = config.coingecko_api_url.clone();
    url.append("/simple/price?ids=");
    url.append(ids.as_str());
    url.append("&vs_currencies=usd&include_24hr_change=true");
    url
}

/// The address that asks the stock service for the quote of one ticker.
pub fn stock_quote_url(config: &AppConfig, ticker: &str) -> (url: String)
    ensures
        url@ == stock_quote_address(*config, ticker@),
{
    let mut url = config.stock_api_url.clone();
    url.append("/query?function=GLOBAL_QUOTE&symbol=");
    url.append(ticker);
    url.append("&apikey=");
    url.append("demo");
    url
}

/// The number text of a change percentage such as `"1.25%"`: every trailing `%` removed.
pub fn change_percent_text(raw: &str) -> (digits: String)
    ensures
        digits@ == strip_trailing(raw@, '%'),
{
    strip_trailing_char(raw, '%')
}

/// `p` is the quote of a ticker of the given kind with the given figures and time.
pub open spec fn is_quote(p: PriceData, ticker: Seq<char>, kind: Seq<char>, price_usd_bits: u64, change_24h_bits: u64, last_updated: Seq<char>) -> bool {
    &&& p.ticker@ == ticker
    &&& p.asset_type@ == kind
    &&& p.price_usd_bits == price_usd_bits
    &&& p.change_24h_bits == change_24h_bits
    &&& p.last_updated@ == last_updated
}

impl PriceData {
    /// The quote of a crypto ticker.
    pub fn crypto(ticker: String, price_usd_bits: u64, change_24h_bits: u64, last_updated: String) -> (p: PriceData)
        ensures
            is_quote(p, ticker@, "crypto"@, price_usd_bits, change_24h_bits, last_updated@),
    {
        PriceData { ticker, asset_type: String::from_str("crypto"), price_usd_bits, change_24h_bits, last_updated }
    }

    /// The quote of a stock ticker.
    pub fn stock(ticker: String, price_usd_bits: u64, change_24h_bits: u64, last_updated: String) -> (p: PriceData)
        ensures
            is_quote(p, ticker@, "stock"@, price_usd_bits, change_24h_bits, last_updated@),
    {
        PriceData { ticker, asset_type: String::from_str("stock"), price_usd_bits, change_24h_bits, last_updated }
    }
}

/// The quotes that the crypto service's answer gives, one per entry and in the
/// entries' order, all stamped with `now`.
pub fn crypto_quotes(entries: Vec<CryptoQuote>, now: &String) -> (quotes: Vec<PriceData>)
    ensures
        quotes@.len() == entries@.len(),
        forall|i: int|
            0 <= i < entries@.len() ==> is_quote(
                #[trigger] quotes@[i],
                entries@[i].ticker@,
                "crypto"@,
                entries@[i].usd_bits,
                entries@[i].usd_24h_change_bits,
                now@,
            ),
{
    let mut quotes: Vec<PriceData> = Vec::new();
    let mut rest = entries;
    let ghost all = rest@;
    let n = rest.len();
    while rest.len() > 0
        invariant
            rest@.len() + quotes@.len() == all.len(),
            all.len() == n,
            rest@ == all.subrange(quotes@.len() as int, n as int),
            forall|j: int|
                0 <= j < quotes@.len() ==> is_quote(
                    #[trigger] quotes@[j],
                    all[j].ticker@,
                    "crypto"@,
                    all[j].usd_bits,
                    all[j].usd_24h_change_bits,
                    now@,
                ),
        decreases rest.len(),
    {
        let entry = rest.remove(0);
        assert(entry == all[quotes@.len() as int]);
        let quote = PriceData::crypto(entry.ticker, entry.usd_bits, entry.usd_24h_change_bits, now.clone());
        quotes.push(quote);
        assert(rest@ =~= all.subrange(quotes@.len() as int, n as int));
    }
    quotes
}

} // verus!
