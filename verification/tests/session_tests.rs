use asset_price_notifier::config::{AppConfig, Settings};
use asset_price_notifier::session::{
    check_admission, ClientEvent, HeartbeatAction, SessionAction, WsSession, CLIENT_TIMEOUT_NANOS,
    HEARTBEAT_INTERVAL_SECS,
};
use asset_price_notifier::state::{AppState, ClientConnection};

fn strings(v: &[&str]) -> Vec<String> {
    v.iter().map(|s| s.to_string()).collect()
}

fn config(crypto: &str, stock: &str, max: &str) -> AppConfig {
    AppConfig::from_settings(&Settings {
        host: None,
        port: None,
        supported_crypto_tickers: Some(crypto.to_string()),
        supported_stock_tickers: Some(stock.to_string()),
        poll_interval_secs: None,
        coingecko_api_url: None,
        stock_api_url: None,
        max_connections_per_ticker: Some(max.to_string()),
    })
    .unwrap()
}

#[test]
fn new_session_follows_every_supported_ticker() {
    let c = config("bitcoin,ethereum", "AAPL", "10");
    let s = WsSession::new(42, &c, 1000);
    assert_eq!(s.id, 42);
    assert_eq!(s.tickers, strings(&["bitcoin", "ethereum", "AAPL"]));
    assert_eq!(s.last_heartbeat, 1000);
    let conn = s.connection();
    assert_eq!(conn, ClientConnection { id: 42, tickers: strings(&["bitcoin", "ethereum", "AAPL"]) });
}

#[test]
fn heartbeat_disconnects_only_after_the_timeout() {
    assert_eq!(CLIENT_TIMEOUT_NANOS, 10_000_000_000);
    assert_eq!(HEARTBEAT_INTERVAL_SECS, 5);
    let c = config("bitcoin", "AAPL", "10");
    let s = WsSession::new(1, &c, 5_000);
    assert_eq!(s.heartbeat(5_000 + CLIENT_TIMEOUT_NANOS), HeartbeatAction::Ping);
    assert_eq!(s.heartbeat(5_000 + CLIENT_TIMEOUT_NANOS + 1), HeartbeatAction::Disconnect);
    assert_eq!(s.heartbeat(0), HeartbeatAction::Ping);
}

#[test]
fn ping_and_pong_refresh_the_heartbeat() {
    let c = config("bitcoin", "AAPL", "10");
    let mut s = WsSession::new(1, &c, 0);
    match s.handle_event(ClientEvent::Ping(vec![1, 2]), 50, &c) {
        SessionAction::Pong(p) => assert_eq!(p, vec![1, 2]),
        _ => panic!("a ping is answered with a pong"),
    }
    assert_eq!(s.last_heartbeat, 50);
    assert!(matches!(s.handle_event(ClientEvent::Pong, 70, &c), SessionAction::Ignore));
    assert_eq!(s.last_heartbeat, 70);
}

#[test]
fn subscription_request_replaces_tickers() {
    let c = config("bitcoin,ethereum", "AAPL,MSFT", "10");
    let mut s = WsSession::new(1, &c, 0);
    let req = Some(strings(&["Bitcoin", "aapl", "doge", "ETHEREUM"]));
    assert!(matches!(s.handle_event(ClientEvent::Subscription(req), 9, &c), SessionAction::Resubscribe));
    assert_eq!(s.tickers, strings(&["bitcoin", "AAPL", "ethereum"]));
    assert_eq!(s.last_heartbeat, 0);
    assert!(s.accepts("AAPL"));
    assert!(!s.accepts("MSFT"));
    assert!(!s.accepts("aapl"));
    assert!(matches!(s.handle_event(ClientEvent::Subscription(None), 9, &c), SessionAction::Resubscribe));
    assert_eq!(s.tickers, strings(&["bitcoin", "ethereum", "AAPL", "MSFT"]));
}

#[test]
fn close_and_errors_stop_other_frames_are_ignored() {
    let c = config("bitcoin", "AAPL", "10");
    let mut s = WsSession::new(1, &c, 3);
    assert!(matches!(s.handle_event(ClientEvent::Close, 4, &c), SessionAction::Stop));
    assert!(matches!(s.handle_event(ClientEvent::ProtocolError, 4, &c), SessionAction::Stop));
    assert!(matches!(s.handle_event(ClientEvent::Binary, 4, &c), SessionAction::Ignore));
    assert!(matches!(s.handle_event(ClientEvent::UnreadableText, 4, &c), SessionAction::Ignore));
    assert!(matches!(s.handle_event(ClientEvent::Other, 4, &c), SessionAction::Ignore));
    assert_eq!(s.last_heartbeat, 3);
    assert_eq!(s.tickers, strings(&["bitcoin", "AAPL"]));
}

#[test]
fn admission_refuses_on_the_first_full_ticker() {
    let c = config("bitcoin,ethereum", "AAPL", "2");
    let mut state = AppState::new();
    assert!(check_admission(&state, &c).is_ok());
    state.add_connection(ClientConnection { id: 1, tickers: strings(&["AAPL", "ethereum"]) });
    state.add_connection(ClientConnection { id: 2, tickers: strings(&["AAPL", "ethereum"]) });
    let r = check_admission(&state, &c).err().unwrap();
    assert_eq!(r.ticker, "ethereum");
    assert_eq!(r.current_connections, 2);
    assert_eq!(r.max_connections, 2);
    state.remove_connection(2);
    assert!(check_admission(&state, &c).is_ok());
}

#[test]
fn zero_limit_refuses_every_session() {
    let c = config("bitcoin", "AAPL", "0");
    let state = AppState::new();
    let r = check_admission(&state, &c).err().unwrap();
    assert_eq!(r.ticker, "bitcoin");
    assert_eq!(r.current_connections, 0);
}
