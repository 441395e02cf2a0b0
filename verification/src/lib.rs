//! The verified core of a live asset-price notifier: its configuration, the
//! shared price and connection state, ticker matching, the live-price session
//! of each client, the answers of its HTTP endpoints, and the requests and
//! quotes of its price fetcher.

pub mod api;
pub mod config;
pub mod fetcher;
pub mod session;
pub mod state;
pub mod text;
pub mod tickers;
