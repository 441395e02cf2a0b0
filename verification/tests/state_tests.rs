use asset_price_notifier::state::{count_occurrences, AppState, ClientConnection, PriceData};

fn strings(v: &[&str]) -> Vec<String> {
    v.iter().map(|s| s.to_string()).collect()
}

fn quote(ticker: &str, price: f64) -> PriceData {
    PriceData {
        ticker: ticker.to_string(),
        asset_type: "crypto".to_string(),
        price_usd_bits: price.to_bits(),
        change_24h_bits: 1.5f64.to_bits(),
        last_updated: "2024-01-01T00:00:00+00:00".to_string(),
    }
}

fn conn(id: u128, tickers: &[&str]) -> ClientConnection {
    ClientConnection { id, tickers: strings(tickers) }
}

#[test]
fn new_state_is_empty() {
    let s = AppState::new();
    assert_eq!(s.get_price("bitcoin"), None);
    assert!(s.get_all_tickers().is_empty());
    assert_eq!(s.get_connection_count("bitcoin"), 0);
    assert!(s.connections.is_empty());
}

#[test]
fn price_read_after_write() {
    let mut s = AppState::new();
    let p = quote("bitcoin", 65000.25);
    s.update_price("bitcoin".to_string(), p.clone());
    assert_eq!(s.get_price("bitcoin"), Some(p));
    assert_eq!(s.get_price("ethereum"), None);
    let q = quote("bitcoin", 1.0);
    s.update_price("bitcoin".to_string(), q.clone());
    assert_eq!(s.get_price("bitcoin"), Some(q));
    assert_eq!(f64::from_bits(s.get_price("bitcoin").unwrap().price_usd_bits), 1.0);
}

#[test]
fn all_tickers_lists_each_quoted_ticker_once() {
    let mut s = AppState::new();
    s.update_price("b".to_string(), quote("b", 1.0));
    s.update_price("a".to_string(), quote("a", 1.0));
    s.update_price("b".to_string(), quote("b", 2.0));
    let mut all = s.get_all_tickers();
    all.sort();
    assert_eq!(all, strings(&["a", "b"]));
}

#[test]
fn adding_connections_counts_each_occurrence() {
    let mut s = AppState::new();
    s.add_connection(conn(1, &["bitcoin", "AAPL"]));
    s.add_connection(conn(2, &["bitcoin", "bitcoin"]));
    assert_eq!(s.get_connection_count("bitcoin"), 3);
    assert_eq!(s.get_connection_count("AAPL"), 1);
    assert_eq!(s.get_connection_count("MSFT"), 0);
    assert_eq!(s.connections.len(), 2);
}

#[test]
fn add_then_remove_restores_counts() {
    let mut s = AppState::new();
    s.add_connection(conn(1, &["bitcoin"]));
    s.add_connection(conn(7, &["bitcoin", "ethereum", "ethereum"]));
    s.remove_connection(7);
    assert_eq!(s.get_connection_count("bitcoin"), 1);
    assert_eq!(s.get_connection_count("ethereum"), 0);
    assert!(s.connections.contains_key(&1));
    assert!(!s.connections.contains_key(&7));
}

#[test]
fn removing_unknown_connection_changes_nothing() {
    let mut s = AppState::new();
    s.add_connection(conn(1, &["bitcoin"]));
    s.remove_connection(99);
    assert_eq!(s.get_connection_count("bitcoin"), 1);
    assert_eq!(s.connections.len(), 1);
}

#[test]
fn counts_never_drop_below_zero() {
    let mut s = AppState::new();
    // A second connection under the same identifier replaces the first without
    // taking back its counts; removing it then lowers each count at most to zero.
    s.add_connection(conn(1, &["a"]));
    s.add_connection(conn(1, &["b", "b"]));
    assert_eq!(s.get_connection_count("a"), 1);
    assert_eq!(s.get_connection_count("b"), 2);
    s.remove_connection(1);
    assert_eq!(s.get_connection_count("a"), 1);
    assert_eq!(s.get_connection_count("b"), 0);
    s.connections.insert(2, conn(2, &["b", "b", "b"]));
    s.remove_connection(2);
    assert_eq!(s.get_connection_count("b"), 0);
}

#[test]
fn counts_equal_followers_over_connections() {
    let mut s = AppState::new();
    s.add_connection(conn(1, &["a", "b"]));
    s.add_connection(conn(2, &["b", "c", "b"]));
    s.add_connection(conn(3, &["c"]));
    s.remove_connection(2);
    assert!(s.resubscribe(3, strings(&["a", "a"])));
    for t in ["a", "b", "c", "d"] {
        let followed: usize = s
            .connections
            .values()
            .map(|c| c.tickers.iter().filter(|x| x.as_str() == t).count())
            .sum();
        assert_eq!(s.get_connection_count(t), followed, "ticker {t}");
    }
}

#[test]
fn subscribers_are_exactly_the_followers() {
    let mut s = AppState::new();
    s.add_connection(conn(1, &["a", "b"]));
    s.add_connection(conn(2, &["b"]));
    s.add_connection(conn(3, &["c"]));
    let mut ids = s.subscribers_of("b");
    ids.sort();
    assert_eq!(ids, vec![1, 2]);
    assert_eq!(s.subscribers_of("c"), vec![3]);
    assert!(s.subscribers_of("z").is_empty());
}

#[test]
fn resubscribe_replaces_tickers() {
    let mut s = AppState::new();
    s.add_connection(conn(5, &["a"]));
    assert!(s.resubscribe(5, strings(&["b", "c"])));
    assert_eq!(s.get_connection_count("a"), 0);
    assert_eq!(s.get_connection_count("b"), 1);
    assert_eq!(s.get_connection_count("c"), 1);
    assert_eq!(s.connections.get(&5).unwrap().tickers, strings(&["b", "c"]));
}

#[test]
fn room_is_checked_against_usize() {
    let mut s = AppState::new();
    assert!(s.has_room_for(&strings(&["a", "a"])));
    s.connection_counts.insert("a".to_string(), usize::MAX - 1);
    assert!(s.has_room_for(&strings(&["a", "b"])));
    assert!(!s.has_room_for(&strings(&["b", "a", "a"])));
    assert!(!s.resubscribe(4, strings(&["a", "a"])));
    assert!(!s.connections.contains_key(&4));
    assert_eq!(s.get_connection_count("a"), usize::MAX - 1);
}

#[test]
fn occurrences_are_counted() {
    assert_eq!(count_occurrences(&strings(&["a", "b", "a"]), "a"), 2);
    assert_eq!(count_occurrences(&strings(&[]), "a"), 0);
}

#[test]
fn first_available_and_current_prices_follow_ticker_order() {
    let mut s = AppState::new();
    let a = quote("a", 1.0);
    let c = quote("c", 3.0);
    s.update_price("a".to_string(), a.clone());
    s.update_price("c".to_string(), c.clone());
    let order = strings(&["b", "c", "a"]);
    assert_eq!(s.first_available_price(&order), Some(c.clone()));
    assert_eq!(s.current_prices(&order), vec![c, a]);
    assert_eq!(s.first_available_price(&strings(&["x"])), None);
    assert!(s.current_prices(&strings(&[])).is_empty());
}

#[test]
fn fetched_price_is_published_when_new_or_significant() {
    let mut s = AppState::new();
    s.add_connection(conn(1, &["a"]));
    s.add_connection(conn(2, &["b"]));
    let first = quote("a", 100.0);
    assert_eq!(s.record_fetched_price(first.clone(), false), Some(vec![1]));
    assert_eq!(s.get_price("a"), Some(first.clone()));
    let small_move = quote("a", 100.05);
    assert_eq!(s.record_fetched_price(small_move, false), None);
    assert_eq!(s.get_price("a"), Some(first));
    let big_move = quote("a", 120.0);
    assert_eq!(s.record_fetched_price(big_move.clone(), true), Some(vec![1]));
    assert_eq!(s.get_price("a"), Some(big_move));
    assert_eq!(s.record_fetched_price(quote("z", 1.0), false), Some(vec![]));
}
