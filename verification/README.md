# asset_price_notifier

A live asset-price notifier: it polls a crypto and a stock quote service, keeps
the latest quote of each supported ticker, answers HTTP requests for prices and
tickers, and pushes significant price changes to WebSocket clients that follow
the ticker.

- `src/` is the verified library (Verus):
  - `config.rs`: the configuration and how it is built from textual settings;
  - `text.rs`: splitting, trimming, joining and number parsing;
  - `tickers.rs`: matching a requested ticker against the supported ones;
  - `state.rs`: the price table, the open connections and the per-ticker
    connection counts, with the laws that relate them;
  - `session.rs`: one client's session and the admission of new sessions;
  - `api.rs`: the answers of the HTTP endpoints;
  - `fetcher.rs`: the quote-service addresses and how answers become quotes.
- `app/` is the program around it: environment, HTTP server, WebSocket actors,
  the polling loop, JSON, and the one floating-point comparison.
- `tests/` exercises the library on concrete values.
