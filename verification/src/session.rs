//! One client's live-price session: which tickers it follows, when it was last
//! heard from, how it answers what the client sends, and whether a new session
//! is admitted at all.

use vstd::prelude::*;
use crate::config::AppConfig;
use crate::state::{contains_text, AppState, ClientConnection};
use crate::text::{copy_strings, texts};
use crate::tickers::{law_resolved_tickers_are_supported, resolve_subscription, resolved_subscription};

verus! {

/// How often the server pings a client, in seconds.
pub const HEARTBEAT_INTERVAL_SECS: u64 = 5;

/// How long a client may stay silent before it is dropped, in nanoseconds.
pub const CLIENT_TIMEOUT_NANOS: u128 = 10_000_000_000;

/// A live-price session. Times are nanoseconds on one monotonic clock.
pub struct WsSession {
    /// The connection's identifier (a UUID as a `u128`).
    pub id: u128,
    /// The tickers the client follows.
    pub tickers: Vec<String>,
    /// When the client was last heard from.
    pub last_heartbeat: u128,
}

/// What a client sent, as far as the session is concerned.
pub enum ClientEvent {
    /// A ping with its payload.
    Ping(Vec<u8>),
    /// A pong.
    Pong,
    /// A text that is a subscription request: the tickers named, or `None` for all.
    Subscription(Option<Vec<String>>),
    /// A text that is no subscription request.
    UnreadableText,
    /// A binary message.
    Binary,
    /// A close frame.
    Close,
    /// A protocol error on the socket.
    ProtocolError,
    /// Any other frame.
    Other,
}

/// What the session does in answer.
pub enum SessionAction {
    /// Answer with a pong carrying this payload.
    Pong(Vec<u8>),
    /// Register the session's new tickers and send the client a current price.
    Resubscribe,
    /// Nothing to do.
    Ignore,
    /// Close the session.
    Stop,
}

/// What the periodic heartbeat does.
#[derive(PartialEq, Eq, Structural, Clone, Copy, Debug)]
pub enum HeartbeatAction {
    /// Ping the client.
    Ping,
    /// The client has been silent too long: close the session.
    Disconnect,
}

/// Why a new session is refused: a supported ticker already has as many
/// connections as the configuration allows.
pub struct ConnectionRejection {
    pub ticker: String,
    pub current_connections: usize,
    pub max_connections: usize,
}

/// The time from `since` to `now`, zero if `now` is earlier.
pub open spec fn elapsed(since: u128, now: u128) -> nat {
    if now >= since {
        (now - since) as nat
    } else {
        0
    }
}

/// Silence is the time from the last heartbeat to now whenever now is not
/// earlier; so once a client has been silent longer than the timeout, it stays
/// so at every later time.
pub proof fn law_silence_is_time_since(since: u128, now: u128, later: u128)
    ensures
        now >= since ==> elapsed(since, now) == now - since,
        since <= now <= later && elapsed(since, now) > CLIENT_TIMEOUT_NANOS ==> elapsed(since, later)
            > CLIENT_TIMEOUT_NANOS,
{
}

/// `tickers` is what a subscription request resolves to.
pub open spec fn subscribed_to(requested: Option<Vec<String>>, config: AppConfig, tickers: Seq<String>) -> bool {
    match requested {
        Some(r) => texts(tickers) == resolved_subscription(texts(r@), config.supported()),
        None => tickers == config.supported_crypto_tickers@ + config.supported_stock_tickers@,
    }
}

/// After a subscription request, a session follows supported tickers only.
pub proof fn law_subscribed_tickers_are_supported(
    requested: Option<Vec<String>>,
    config: AppConfig,
    tickers: Seq<String>,
)
    requires
        subscribed_to(requested, config, tickers),
    ensures
        forall|i: int| 0 <= i < tickers.len() ==> config.supported().contains(#[trigger] tickers[i]@),
{
    match requested {
        Some(r) => {
            law_resolved_tickers_are_supported(texts(r@), config.supported());
            assert forall|i: int| 0 <= i < tickers.len() implies config.supported().contains(
                #[trigger] tickers[i]@,
            ) by {
                assert(texts(tickers)[i] == tickers[i]@);
            }
        },
        None => {
            assert forall|i: int| 0 <= i < tickers.len() implies config.supported().contains(
                #[trigger] tickers[i]@,
            ) by {
                assert(texts(tickers)[i] == tickers[i]@);
                assert(texts(tickers) =~= config.supported());
            }
        },
    }
}

impl WsSession {
    /// A session that follows every supported ticker, last heard from `now`.
    pub fn new(id: u128, config: &AppConfig, now: u128) -> (s: WsSession)
        ensures
            s.id == id,
            s.tickers@ == config.supported_crypto_tickers@ + config.supported_stock_tickers@,
            s.last_heartbeat == now,
    {
        WsSession { id, tickers: config.all_supported_tickers(), last_heartbeat: now }
    }

    /// Disconnect when the client has been silent longer than the timeout, else ping.
    pub fn heartbeat(&self, now: u128) -> (action: HeartbeatAction)
        ensures
            action == if elapsed(self.last_heartbeat, now) > CLIENT_TIMEOUT_NANOS {
                HeartbeatAction::Disconnect
            } else {
                HeartbeatAction::Ping
            },
            now >= self.last_heartbeat ==> (action == HeartbeatAction::Disconnect <==> now - self.last_heartbeat
                > CLIENT_TIMEOUT_NANOS),
            now < self.last_heartbeat ==> action == HeartbeatAction::Ping,
    {
        let quiet: u128 = if now >= self.last_heartbeat {
            now - self.last_heartbeat
        } else {
            0
        };
        if quiet > CLIENT_TIMEOUT_NANOS {
            HeartbeatAction::Disconnect
        } else {
            HeartbeatAction::Ping
        }
    }

    /// Whether a price update for the ticker is sent to this client.
    pub fn accepts(&self, ticker: &str) -> (wanted: bool)
        ensures
            wanted == texts(self.tickers@).contains(ticker@),
    {
        contains_text(&self.tickers, ticker)
    }

    /// The connection this session registers in the shared state.
    pub fn connection(&self) -> (c: ClientConnection)
        ensures
            c.id == self.id,
            c.tickers@ == self.tickers@,
    {
        let tickers = copy_strings(&self.tickers);
        ClientConnection { id: self.id, tickers }
    }

    /// Answers what the client sent at `now`: a ping or pong counts as being heard
    /// from, a subscription request replaces the tickers followed, a close or a
    /// protocol error ends the session, anything else is ignored.
    pub fn handle_event(&mut self, event: ClientEvent, now: u128, config: &AppConfig) -> (action: SessionAction)
        ensures
            final(self).id == old(self).id,
            match event {
                ClientEvent::Ping(payload) => action == SessionAction::Pong(payload)
                    && final(self).last_heartbeat == now && final(self).tickers == old(self).tickers,
                ClientEvent::Pong => action == SessionAction::Ignore && final(self).last_heartbeat == now
                    && final(self).tickers == old(self).tickers,
                ClientEvent::Subscription(requested) => action == SessionAction::Resubscribe
                    && subscribed_to(requested, *config, final(self).tickers@)
                    && final(self).last_heartbeat == old(self).last_heartbeat,
                ClientEvent::Close | ClientEvent::ProtocolError => action == SessionAction::Stop
                    && final(self).tickers == old(self).tickers
                    && final(self).last_heartbeat == old(self).last_heartbeat,
                _ => action == SessionAction::Ignore && final(self).tickers == old(self).tickers
                    && final(self).last_heartbeat == old(self).last_heartbeat,
            },
    {
        match event {
            ClientEvent::Ping(payload) => {
                self.last_heartbeat = now;
                SessionAction::Pong(payload)
            },
            ClientEvent::Pong => {
                self.last_heartbeat = now;
                SessionAction::Ignore
            },
            ClientEvent::Subscription(requested) => {
                self.tickers = resolve_subscription(requested, config);
                SessionAction::Resubscribe
            },
            ClientEvent::Close => SessionAction::Stop,
            ClientEvent::ProtocolError => SessionAction::Stop,
            ClientEvent::UnreadableText => SessionAction::Ignore,
            ClientEvent::Binary => SessionAction::Ignore,
            ClientEvent::Other => SessionAction::Ignore,
        }
    }
}

/// Whether a new session is admitted: refused, naming the first supported ticker
/// (crypto tickers first) whose connection count has reached the limit, when
/// there is one.
pub fn check_admission(state: &AppState, config: &AppConfig) -> (r: Result<(), ConnectionRejection>)
    ensures
        match r {
            Ok(()) => forall|i: int|
                0 <= i < config.supported().len() ==> #[trigger] state.count_of(config.supported()[i])
                    < config.max_connections_per_ticker,
            Err(rejection) => exists|i: int|
                0 <= i < config.supported().len() && config.supported()[i] == rejection.ticker@
                    && state.count_of(config.supported()[i]) >= config.max_connections_per_ticker
                    && rejection.current_connections == state.count_of(config.supported()[i])
                    && rejection.max_connections == config.max_connections_per_ticker
                    && forall|j: int|
                    0 <= j < i ==> #[trigger] state.count_of(config.supported()[j])
                        < config.max_connections_per_ticker,
        },
{
    let max_connections = config.max_connections_per_ticker;
    let all = config.all_supported_tickers();
    let mut i: usize = 0;
    while i < all.len()
        invariant
            i <= all@.len(),
            texts(all@) == config.supported(),
            max_connections == config.max_connections_per_ticker,
            forall|j: int| 0 <= j < i ==> #[trigger] state.count_of(config.supported()[j]) < max_connections,
        decreases all.len() - i,
    {
        let current = state.get_connection_count(all[i].as_str());
        assert(config.supported()[i as int] == all@[i as int]@);
        if current >= max_connections {
            return Err(
                ConnectionRejection {
                    ticker: all[i].clone(),
                    current_connections: current,
                    max_connections,
                },
            );
        }
        i = i + 1;
    }
    Ok(())
}

} // verus!
