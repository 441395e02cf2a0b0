//! The shared state of the service: the latest price of each ticker, the open
//! client connections, and how many connections follow each ticker.

use std::collections::HashMap;
use dashmap::DashMap;
use vstd::prelude::*;
use crate::text::texts;
use vstd::std_specs::hash::spec_hash_map_iter;
use vstd::std_specs::iter::IteratorSpec;

verus! {

broadcast use vstd::std_specs::hash::group_hash_axioms;

#[verifier::external_type_specification]
#[verifier::external_body]
#[verifier::reject_recursive_types(K)]
#[verifier::reject_recursive_types(V)]
#[verifier::reject_recursive_types(S)]
pub struct ExDashMap<K, V, S>(DashMap<K, V, S>);

/// The latest quote of one ticker. The two floating-point figures are held by
/// their IEEE-754 bit patterns (`f64::to_bits`): the library stores and hands
/// them back, and never computes with them.
#[derive(Clone, Debug, PartialEq, Eq)]
pub struct PriceData {
    pub ticker: String,
    /// `"crypto"` or `"stock"`.
    pub asset_type: String,
    pub price_usd_bits: u64,
    pub change_24h_bits: u64,
    pub last_updated: String,
}

/// A client connection: its identifier (a UUID as a `u128`) and the tickers it follows.
#[derive(Clone, Debug, PartialEq, Eq)]
pub struct ClientConnection {
    pub id: u128,
    pub tickers: Vec<String>,
}

/// The table with no entries.
pub open spec fn empty_table<V>() -> Map<Seq<char>, V> {
    Map::empty()
}

/// The entry of a table under a key, if there is one.
pub open spec fn table_get<V>(table: Map<Seq<char>, V>, key: Seq<char>) -> Option<V> {
    if table.contains_key(key) {
        Some(table[key])
    } else {
        None
    }
}

/// What a price table holds: ticker to latest quote.
pub uninterp spec fn price_table(m: DashMap<String, PriceData>) -> Map<Seq<char>, PriceData>;

/// What a count table holds: ticker to number of following connections.
pub uninterp spec fn count_table(m: DashMap<String, usize>) -> Map<Seq<char>, usize>;

/// Calls `DashMap::new`: an empty price table.
#[verifier::external_body]
fn prices_new() -> (fresh: DashMap<String, PriceData>)
    ensures
        price_table(fresh) == empty_table::<PriceData>(),
{
    DashMap::new()
}

/// Calls `DashMap::insert`: the entry under `key` becomes `value`, others stay.
#[verifier::external_body]
fn prices_insert(m: &mut DashMap<String, PriceData>, key: String, value: PriceData)
    ensures
        price_table(*final(m)) == price_table(*old(m)).insert(key@, value),
{
    m.insert(key, value);
}

/// Calls `DashMap::get` and clones the entry found: the entry under `key`, if any.
#[verifier::external_body]
fn prices_get(m: &DashMap<String, PriceData>, key: &str) -> (found: Option<PriceData>)
    ensures
        found == table_get(price_table(*m), key@),
{
    m.get(key).map(|entry| entry.value().clone())
}

/// Calls `DashMap::iter` and collects each entry's key: every ticker of the
/// table once, in an order that the table's hashing decides.
#[verifier::external_body]
fn prices_tickers(m: &DashMap<String, PriceData>) -> (keys: Vec<String>)
    ensures
        texts(keys@).no_duplicates(),
        texts(keys@).to_set() == price_table(*m).dom(),
{
    m.iter().map(|entry| entry.key().clone()).collect()
}

/// Calls `DashMap::new`: an empty count table.
#[verifier::external_body]
fn counts_new() -> (fresh: DashMap<String, usize>)
    ensures
        count_table(fresh) == empty_table::<usize>(),
{
    DashMap::new()
}

/// Calls `DashMap::get` and copies the entry found: the count under `key`, if any.
#[verifier::external_body]
fn counts_get(m: &DashMap<String, usize>, key: &str) -> (found: Option<usize>)
    ensures
        found == table_get(count_table(*m), key@),
{
    m.get(key).map(|entry| *entry.value())
}

/// Calls `DashMap::insert`: the count under `key` becomes `value`, others stay.
#[verifier::external_body]
fn counts_insert(m: &mut DashMap<String, usize>, key: String, value: usize)
    ensures
        count_table(*final(m)) == count_table(*old(m)).insert(key@, value),
{
    m.insert(key, value);
}

/// The count a table holds for a ticker; zero where it holds none.
pub open spec fn count_in(table: Map<Seq<char>, usize>, t: Seq<char>) -> nat {
    if table.contains_key(t) {
        table[t] as nat
    } else {
        0
    }
}

/// How often `t` occurs in `ts`.
pub open spec fn occurrences(ts: Seq<Seq<char>>, t: Seq<char>) -> nat
    decreases ts.len(),
{
    if ts.len() == 0 {
        0
    } else {
        occurrences(ts.drop_last(), t) + if ts.last() == t {
            1nat
        } else {
            0nat
        }
    }
}

/// The table with the count of `t` raised by one.
pub open spec fn bump(table: Map<Seq<char>, usize>, t: Seq<char>) -> Map<Seq<char>, usize> {
    table.insert(t, (count_in(table, t) + 1) as usize)
}

/// The table with the count of each of `ts` raised by one, in order.
pub open spec fn bump_all(table: Map<Seq<char>, usize>, ts: Seq<Seq<char>>) -> Map<Seq<char>, usize>
    decreases ts.len(),
{
    if ts.len() == 0 {
        table
    } else {
        bump(bump_all(table, ts.drop_last()), ts.last())
    }
}

/// The table with the count of `t` lowered by one where it is held and positive.
pub open spec fn drop_one(table: Map<Seq<char>, usize>, t: Seq<char>) -> Map<Seq<char>, usize> {
    if table.contains_key(t) && table[t] > 0 {
        table.insert(t, (table[t] - 1) as usize)
    } else {
        table
    }
}

/// The table with `drop_one` applied for each of `ts`, in order.
pub open spec fn drop_all(table: Map<Seq<char>, usize>, ts: Seq<Seq<char>>) -> Map<Seq<char>, usize>
    decreases ts.len(),
{
    if ts.len() == 0 {
        table
    } else {
        drop_one(drop_all(table, ts.drop_last()), ts.last())
    }
}

/// Raising the counts of `ts` cannot overflow.
pub open spec fn room_for(table: Map<Seq<char>, usize>, ts: Seq<Seq<char>>) -> bool {
    forall|u: Seq<char>| count_in(table, u) + occurrences(ts, u) <= usize::MAX
}

pub proof fn lemma_occurrences_prefix(ts: Seq<Seq<char>>, i: int, t: Seq<char>)
    requires
        0 <= i <= ts.len(),
    ensures
        occurrences(ts.take(i), t) <= occurrences(ts, t),
        i < ts.len() ==> occurrences(ts.take(i + 1), t) == occurrences(ts.take(i), t) + if ts[i]
            == t {
            1nat
        } else {
            0nat
        },
    decreases ts.len() - i,
{
    if i < ts.len() {
        assert(ts.take(i + 1).drop_last() =~= ts.take(i));
        lemma_occurrences_prefix(ts, i + 1, t);
    } else {
        assert(ts.take(i) =~= ts);
    }
}

/// The predicate "equals `t`".
pub open spec fn equal_to(t: Seq<char>) -> spec_fn(Seq<char>) -> bool {
    |u: Seq<char>| u == t
}

/// The occurrences of `t` in `ts` are the elements of `ts` equal to `t`.
pub proof fn law_occurrences_count_equal_elements(ts: Seq<Seq<char>>, t: Seq<char>)
    ensures
        occurrences(ts, t) == ts.filter(equal_to(t)).len(),
    decreases ts.len(),
{
    reveal(Seq::filter);
    if ts.len() > 0 {
        law_occurrences_count_equal_elements(ts.drop_last(), t);
    }
}

pub proof fn lemma_occurrences_bound(ts: Seq<Seq<char>>, t: Seq<char>)
    ensures
        occurrences(ts, t) <= ts.len(),
        occurrences(ts, t) > 0 ==> ts.contains(t),
    decreases ts.len(),
{
    if ts.len() > 0 {
        lemma_occurrences_bound(ts.drop_last(), t);
        if occurrences(ts.drop_last(), t) > 0 {
            let j = choose|j: int| 0 <= j < ts.drop_last().len() && ts.drop_last()[j] == t;
            assert(ts[j] == t);
        }
        if ts.last() == t {
            assert(ts[ts.len() - 1] == t);
        }
    }
}

/// How often the text `t` occurs among the strings.
pub fn count_occurrences(list: &Vec<String>, t: &str) -> (n: usize)
    ensures
        n == occurrences(texts(list@), t@),
{
    let ghost ts = texts(list@);
    let mut n: usize = 0;
    let mut i: usize = 0;
    assert(ts.take(0) =~= Seq::<Seq<char>>::empty());
    while i < list.len()
        invariant
            i <= list@.len(),
            ts == texts(list@),
            n == occurrences(ts.take(i as int), t@),
            n <= i,
        decreases list.len() - i,
    {
        assert(ts.take(i + 1).drop_last() =~= ts.take(i as int));
        assert(ts.take(i + 1).last() == list@[i as int]@);
        if string_is(&list[i], t) {
            n = n + 1;
        }
        i = i + 1;
    }
    assert(ts.take(ts.len() as int) =~= ts);
    n
}

pub proof fn lemma_bump_all_count(table: Map<Seq<char>, usize>, ts: Seq<Seq<char>>, t: Seq<char>)
    requires
        room_for(table, ts),
    ensures
        count_in(bump_all(table, ts), t) == count_in(table, t) + occurrences(ts, t),
    decreases ts.len(),
{
    if ts.len() > 0 {
        let pre = ts.drop_last();
        assert(room_for(table, pre)) by {
            assert forall|u: Seq<char>| count_in(table, u) + occurrences(pre, u) <= usize::MAX by {
                assert(count_in(table, u) + occurrences(ts, u) <= usize::MAX);
            }
        }
        lemma_bump_all_count(table, pre, t);
        lemma_bump_all_count(table, pre, ts.last());
        assert(count_in(table, ts.last()) + occurrences(ts, ts.last()) <= usize::MAX);
    }
}

pub proof fn lemma_drop_all_count(table: Map<Seq<char>, usize>, ts: Seq<Seq<char>>, t: Seq<char>)
    ensures
        count_in(drop_all(table, ts), t) == if count_in(table, t) >= occurrences(ts, t) {
            count_in(table, t) - occurrences(ts, t)
        } else {
            0
        },
    decreases ts.len(),
{
    if ts.len() > 0 {
        lemma_drop_all_count(table, ts.drop_last(), t);
    }
}

/// How many times, over all connections, `t` is among the tickers followed.
pub open spec fn subscriptions(conns: Map<u128, ClientConnection>, t: Seq<char>) -> nat
    decreases conns.dom().len(),
{
    if conns.dom().finite() && conns.dom().len() > 0 {
        let id = conns.dom().choose();
        occurrences(texts(conns[id].tickers@), t) + subscriptions(conns.remove(id), t)
    } else {
        0
    }
}

/// Every count equals how often its ticker is followed over all connections.
pub open spec fn counts_match(table: Map<Seq<char>, usize>, conns: Map<u128, ClientConnection>) -> bool {
    &&& conns.dom().finite()
    &&& forall|t: Seq<char>| #[trigger] count_in(table, t) == subscriptions(conns, t)
}

pub proof fn lemma_subscriptions_remove(conns: Map<u128, ClientConnection>, k: u128, t: Seq<char>)
    requires
        conns.dom().finite(),
        conns.contains_key(k),
    ensures
        subscriptions(conns, t) == occurrences(texts(conns[k].tickers@), t) + subscriptions(
            conns.remove(k),
            t,
        ),
    decreases conns.dom().len(),
{
    let c = conns.dom().choose();
    assert(conns.dom().contains(c));
    if c != k {
        let without_c = conns.remove(c);
        let without_k = conns.remove(k);
        lemma_subscriptions_remove(without_c, k, t);
        lemma_subscriptions_remove(without_k, c, t);
        assert(without_c.remove(k) =~= without_k.remove(c));
    }
}

pub proof fn lemma_subscriptions_empty(t: Seq<char>)
    ensures
        subscriptions(Map::<u128, ClientConnection>::empty(), t) == 0,
{
    assert(Map::<u128, ClientConnection>::empty().dom() =~= Set::<u128>::empty());
}

/// Adding a connection under a fresh identifier keeps every count equal to how
/// often its ticker is followed.
pub proof fn law_add_keeps_counts_matching(
    table: Map<Seq<char>, usize>,
    conns: Map<u128, ClientConnection>,
    c: ClientConnection,
)
    requires
        counts_match(table, conns),
        !conns.contains_key(c.id),
        room_for(table, texts(c.tickers@)),
    ensures
        counts_match(bump_all(table, texts(c.tickers@)), conns.insert(c.id, c)),
{
    let after = conns.insert(c.id, c);
    assert(after.remove(c.id) =~= conns);
    assert forall|t: Seq<char>|
        #[trigger] count_in(bump_all(table, texts(c.tickers@)), t) == subscriptions(after, t) by {
        lemma_bump_all_count(table, texts(c.tickers@), t);
        lemma_subscriptions_remove(after, c.id, t);
        assert(count_in(table, t) == subscriptions(conns, t));
    }
}

/// Removing a connection keeps every count equal to how often its ticker is
/// followed.
pub proof fn law_remove_keeps_counts_matching(
    table: Map<Seq<char>, usize>,
    conns: Map<u128, ClientConnection>,
    id: u128,
)
    requires
        counts_match(table, conns),
    ensures
        counts_match(
            if conns.contains_key(id) {
                drop_all(table, texts(conns[id].tickers@))
            } else {
                table
            },
            conns.remove(id),
        ),
{
    if conns.contains_key(id) {
        let ts = texts(conns[id].tickers@);
        assert forall|t: Seq<char>|
            #[trigger] count_in(drop_all(table, ts), t) == subscriptions(conns.remove(id), t) by {
            lemma_drop_all_count(table, ts, t);
            lemma_subscriptions_remove(conns, id, t);
            assert(count_in(table, t) == subscriptions(conns, t));
        }
    } else {
        assert(conns.remove(id) =~= conns);
    }
}

/// Resubscribing a connection keeps every count equal to how often its ticker
/// is followed.
pub proof fn law_resubscribe_keeps_counts_matching(
    table: Map<Seq<char>, usize>,
    conns: Map<u128, ClientConnection>,
    c: ClientConnection,
)
    requires
        counts_match(table, conns),
        room_for(
            if conns.contains_key(c.id) {
                drop_all(table, texts(conns[c.id].tickers@))
            } else {
                table
            },
            texts(c.tickers@),
        ),
    ensures
        counts_match(
            bump_all(
                if conns.contains_key(c.id) {
                    drop_all(table, texts(conns[c.id].tickers@))
                } else {
                    table
                },
                texts(c.tickers@),
            ),
            conns.insert(c.id, c),
        ),
{
    law_remove_keeps_counts_matching(table, conns, c.id);
    let without = if conns.contains_key(c.id) {
        drop_all(table, texts(conns[c.id].tickers@))
    } else {
        table
    };
    law_add_keeps_counts_matching(without, conns.remove(c.id), c);
    assert(conns.remove(c.id).insert(c.id, c) =~= conns.insert(c.id, c));
}

/// A quote held for a ticker is what a read of that ticker gives back, and
/// holding it changes what no other ticker reads.
pub proof fn law_price_read_after_write(
    table: Map<Seq<char>, PriceData>,
    ticker: Seq<char>,
    price_data: PriceData,
    other: Seq<char>,
)
    ensures
        table_get(table.insert(ticker, price_data), ticker) == Some(price_data),
        other != ticker ==> table_get(table.insert(ticker, price_data), other) == table_get(table, other),
{
}

/// A connection added under a fresh identifier and then removed leaves the
/// connections and every count as they were.
pub proof fn law_add_then_remove_restores(
    table: Map<Seq<char>, usize>,
    conns: Map<u128, ClientConnection>,
    c: ClientConnection,
    t: Seq<char>,
)
    requires
        !conns.contains_key(c.id),
        room_for(table, texts(c.tickers@)),
    ensures
        conns.insert(c.id, c).remove(c.id) == conns,
        count_in(drop_all(bump_all(table, texts(c.tickers@)), texts(c.tickers@)), t) == count_in(
            table,
            t,
        ),
{
    assert(conns.insert(c.id, c).remove(c.id) =~= conns);
    lemma_bump_all_count(table, texts(c.tickers@), t);
    lemma_drop_all_count(bump_all(table, texts(c.tickers@)), texts(c.tickers@), t);
}

/// Whether one of the strings holds the text `t`.
pub fn contains_text(list: &Vec<String>, t: &str) -> (found: bool)
    ensures
        found == texts(list@).contains(t@),
{
    let mut i: usize = 0;
    while i < list.len()
        invariant
            i <= list@.len(),
            forall|j: int| 0 <= j < i ==> list@[j]@ != t@,
        decreases list.len() - i,
    {
        if string_is(&list[i], t) {
            assert(texts(list@)[i as int] == t@);
            return true;
        }
        i = i + 1;
    }
    proof {
        if texts(list@).contains(t@) {
            let j = choose|j: int| 0 <= j < texts(list@).len() && texts(list@)[j] == t@;
            assert(list@[j]@ == t@);
        }
    }
    false
}

/// Whether the string holds the text `t`.
pub fn string_is(s: &String, t: &str) -> (same: bool)
    ensures
        same == (s@ == t@),
{
    let owned = String::from_str(t);
    *s == owned
}

/// The quotes held for the tickers of `ts` that have one, in the order of `ts`.
pub open spec fn prices_for(table: Map<Seq<char>, PriceData>, ts: Seq<Seq<char>>) -> Seq<PriceData>
    decreases ts.len(),
{
    if ts.len() == 0 {
        Seq::empty()
    } else {
        let earlier = prices_for(table, ts.drop_last());
        if table.contains_key(ts.last()) {
            earlier.push(table[ts.last()])
        } else {
            earlier
        }
    }
}

/// The quote of the first ticker of `ts` that has one.
pub open spec fn first_price(table: Map<Seq<char>, PriceData>, ts: Seq<Seq<char>>) -> Option<PriceData>
    decreases ts.len(),
{
    if ts.len() == 0 {
        None
    } else if table.contains_key(ts[0]) {
        Some(table[ts[0]])
    } else {
        first_price(table, ts.drop_first())
    }
}

/// The current quotes of a list of tickers are the quotes of exactly those tickers
/// of the list that have one, all of them and in list order.
pub proof fn law_prices_for_are_quoted_tickers_in_order(table: Map<Seq<char>, PriceData>, ts: Seq<Seq<char>>)
    ensures
        prices_for(table, ts) == ts.filter(|t: Seq<char>| table.contains_key(t)).map_values(
            |t: Seq<char>| table[t],
        ),
    decreases ts.len(),
{
    let quoted = |t: Seq<char>| table.contains_key(t);
    let quote = |t: Seq<char>| table[t];
    reveal(Seq::filter);
    if ts.len() == 0 {
        assert(ts.filter(quoted) =~= Seq::<Seq<char>>::empty());
        assert(ts.filter(quoted).map_values(quote) =~= Seq::<PriceData>::empty());
    } else {
        let pre = ts.drop_last();
        law_prices_for_are_quoted_tickers_in_order(table, pre);
        if quoted(ts.last()) {
            assert(ts.filter(quoted) == pre.filter(quoted).push(ts.last()));
            assert(pre.filter(quoted).push(ts.last()).map_values(quote) =~= pre.filter(quoted).map_values(
                quote,
            ).push(quote(ts.last())));
        } else {
            assert(ts.filter(quoted) == pre.filter(quoted));
        }
    }
}

/// The first quote of a list of tickers is that of the ticker with the least index
/// that has a quote; there is none exactly when no ticker of the list has one.
pub proof fn law_first_price_is_least_quoted(table: Map<Seq<char>, PriceData>, ts: Seq<Seq<char>>)
    ensures
        ts.len() > 0 && table.contains_key(ts[0]) ==> first_price(table, ts) == Some(table[ts[0]]),
        match first_price(table, ts) {
            Some(p) => exists|k: int|
                0 <= k < ts.len() && table.contains_key(ts[k]) && p == table[ts[k]] && forall|j: int|
                    0 <= j < k ==> !table.contains_key(#[trigger] ts[j]),
            None => forall|k: int| 0 <= k < ts.len() ==> !table.contains_key(#[trigger] ts[k]),
        },
    decreases ts.len(),
{
    if ts.len() > 0 && !table.contains_key(ts[0]) {
        let rest = ts.drop_first();
        law_first_price_is_least_quoted(table, rest);
        match first_price(table, rest) {
            Some(p) => {
                let k = choose|k: int|
                    0 <= k < rest.len() && table.contains_key(rest[k]) && p == table[rest[k]] && forall|j: int|
                        0 <= j < k ==> !table.contains_key(#[trigger] rest[j]);
                assert(ts[k + 1] == rest[k]);
                assert forall|j: int| 0 <= j < k + 1 implies !table.contains_key(#[trigger] ts[j]) by {
                    if j > 0 {
                        assert(ts[j] == rest[j - 1]);
                    }
                }
            },
            None => {
                assert forall|k: int| 0 <= k < ts.len() implies !table.contains_key(#[trigger] ts[k]) by {
                    if k > 0 {
                        assert(ts[k] == rest[k - 1]);
                    }
                }
            },
        }
    }
}

/// The shared state of the service.
pub struct AppState {
    pub prices: DashMap<String, PriceData>,
    pub connections: HashMap<u128, ClientConnection>,
    pub connection_counts: DashMap<String, usize>,
}

impl AppState {
    /// The latest quote held for each ticker.
    pub open spec fn price_view(&self) -> Map<Seq<char>, PriceData> {
        price_table(self.prices)
    }

    /// The count held for each ticker.
    pub open spec fn count_view(&self) -> Map<Seq<char>, usize> {
        count_table(self.connection_counts)
    }

    /// How many connections are counted as following `t`.
    pub open spec fn count_of(&self, t: Seq<char>) -> nat {
        count_in(self.count_view(), t)
    }

    /// Every count equals how often its ticker is followed over the connections held.
    pub open spec fn counts_consistent(&self) -> bool {
        counts_match(self.count_view(), self.connections@)
    }

    /// The identifiers of the connections that follow `t`.
    pub open spec fn followers(&self, t: Seq<char>) -> Set<u128> {
        Set::new(
            |id: u128|
                self.connections@.contains_key(id) && texts(
                    self.connections@[id].tickers@,
                ).contains(t),
        )
    }

    /// A connection follows a ticker exactly when the ticker occurs anywhere among
    /// the connection's tickers.
    pub proof fn law_followers_list_the_ticker(&self, t: Seq<char>, id: u128)
        ensures
            self.followers(t).contains(id) <==> (self.connections@.contains_key(id) && exists|i: int|
                0 <= i < self.connections@[id].tickers@.len() && #[trigger] self.connections@[id].tickers@[i]@
                    == t),
    {
        if self.connections@.contains_key(id) {
            let v = self.connections@[id].tickers@;
            if texts(v).contains(t) {
                let k = choose|k: int| 0 <= k < texts(v).len() && texts(v)[k] == t;
                assert(v[k]@ == t);
            }
            if exists|i: int| 0 <= i < v.len() && #[trigger] v[i]@ == t {
                let i = choose|i: int| 0 <= i < v.len() && #[trigger] v[i]@ == t;
                assert(texts(v)[i] == t);
            }
        }
    }

    /// A state with no prices, no connections and no counts.
    pub fn new() -> (s: Self)
        ensures
            s.price_view() == empty_table::<PriceData>(),
            s.connections@ == Map::<u128, ClientConnection>::empty(),
            s.count_view() == empty_table::<usize>(),
            s.counts_consistent(),
    {
        proof {
            assert forall|t: Seq<char>|
                #[trigger] count_in(empty_table::<usize>(), t) == subscriptions(
                    Map::<u128, ClientConnection>::empty(),
                    t,
                ) by {
                lemma_subscriptions_empty(t);
            }
        }
        AppState {
            prices: prices_new(),
            connections: HashMap::new(),
            connection_counts: counts_new(),
        }
    }

    /// Registers a connection under its identifier (replacing any connection held
    /// under it) and counts one more follower for each of its tickers, once per
    /// occurrence.
    pub fn add_connection(&mut self, connection: ClientConnection)
        requires
            room_for(old(self).count_view(), texts(connection.tickers@)),
        ensures
            final(self).connections@ == old(self).connections@.insert(connection.id, connection),
            final(self).count_view() == bump_all(old(self).count_view(), texts(connection.tickers@)),
            final(self).price_view() == old(self).price_view(),
            old(self).counts_consistent() && !old(self).connections@.contains_key(connection.id)
                ==> final(self).counts_consistent(),
            forall|t: Seq<char>|
                #[trigger] final(self).count_of(t) == old(self).count_of(t) + texts(connection.tickers@).filter(equal_to(t)).len(),
    {
        proof {
            assert forall|t: Seq<char>|
                #[trigger] count_in(bump_all(old(self).count_view(), texts(connection.tickers@)), t)
                    == old(self).count_of(t) + texts(connection.tickers@).filter(equal_to(t)).len() by {
                lemma_bump_all_count(old(self).count_view(), texts(connection.tickers@), t);
                law_occurrences_count_equal_elements(texts(connection.tickers@), t);
            }
            if old(self).counts_consistent() && !old(self).connections@.contains_key(connection.id) {
                law_add_keeps_counts_matching(old(self).count_view(), old(self).connections@, connection);
            }
        }
        let ghost start = self.count_view();
        let ghost ts = texts(connection.tickers@);
        let mut i: usize = 0;
        assert(ts.take(0) =~= Seq::<Seq<char>>::empty());
        while i < connection.tickers.len()
            invariant
                i <= connection.tickers@.len(),
                ts == texts(connection.tickers@),
                room_for(start, ts),
                self.count_view() == bump_all(start, ts.take(i as int)),
                self.price_view() == old(self).price_view(),
                self.connections == old(self).connections,
            decreases connection.tickers.len() - i,
        {
            let ticker = &connection.tickers[i];
            assert(ts[i as int] == ticker@);
            proof {
                lemma_occurrences_prefix(ts, i as int, ticker@);
                lemma_occurrences_prefix(ts, i as int + 1, ticker@);
                assert(room_for(start, ts.take(i as int))) by {
                    assert forall|u: Seq<char>|
                        count_in(start, u) + occurrences(ts.take(i as int), u) <= usize::MAX by {
                        lemma_occurrences_prefix(ts, i as int, u);
                        assert(count_in(start, u) + occurrences(ts, u) <= usize::MAX);
                    }
                }
                lemma_bump_all_count(start, ts.take(i as int), ticker@);
                assert(count_in(start, ticker@) + occurrences(ts, ticker@) <= usize::MAX);
            }
            let next: usize = match counts_get(&self.connection_counts, ticker.as_str()) {
                Some(c) => c + 1,
                None => 1,
            };
            counts_insert(&mut self.connection_counts, ticker.clone(), next);
            assert(ts.take(i + 1).drop_last() =~= ts.take(i as int));
            i = i + 1;
        }
        assert(ts.take(ts.len() as int) =~= ts);
        let id = connection.id;
        self.connections.insert(id, connection);
    }

    /// Forgets the connection held under `connection_id`, if any, and counts one
    /// follower less for each of its tickers, once per occurrence, never below zero.
    pub fn remove_connection(&mut self, connection_id: u128)
        ensures
            final(self).connections@ == old(self).connections@.remove(connection_id),
            final(self).count_view() == if old(self).connections@.contains_key(connection_id) {
                drop_all(old(self).count_view(), texts(old(self).connections@[connection_id].tickers@))
            } else {
                old(self).count_view()
            },
            final(self).price_view() == old(self).price_view(),
            old(self).counts_consistent() ==> final(self).counts_consistent(),
            forall|t: Seq<char>|
                #![trigger final(self).count_of(t)]
                old(self).connections@.contains_key(connection_id) ==> final(self).count_of(t) == if old(
                    self,
                ).count_of(t) >= texts(old(self).connections@[connection_id].tickers@).filter(equal_to(t)).len() {
                    old(self).count_of(t) - texts(old(self).connections@[connection_id].tickers@).filter(equal_to(t)).len()
                } else {
                    0
                },
    {
        proof {
            if old(self).connections@.contains_key(connection_id) {
                let ts = texts(old(self).connections@[connection_id].tickers@);
                assert forall|t: Seq<char>|
                    #[trigger] count_in(drop_all(old(self).count_view(), ts), t) == if old(self).count_of(t)
                        >= ts.filter(equal_to(t)).len() {
                        old(self).count_of(t) - ts.filter(equal_to(t)).len()
                    } else {
                        0
                    } by {
                    lemma_drop_all_count(old(self).count_view(), ts, t);
                    law_occurrences_count_equal_elements(ts, t);
                }
            }
            if old(self).counts_consistent() {
                law_remove_keeps_counts_matching(old(self).count_view(), old(self).connections@, connection_id);
            }
        }
        match self.connections.remove(&connection_id) {
            Some(connection) => {
                let ghost start = self.count_view();
                let ghost ts = texts(connection.tickers@);
                let mut i: usize = 0;
                assert(ts.take(0) =~= Seq::<Seq<char>>::empty());
                while i < connection.tickers.len()
                    invariant
                        i <= connection.tickers@.len(),
                        ts == texts(connection.tickers@),
                        self.count_view() == drop_all(start, ts.take(i as int)),
                        self.price_view() == old(self).price_view(),
                        self.connections@ == old(self).connections@.remove(connection_id),
                    decreases connection.tickers.len() - i,
                {
                    let ticker = &connection.tickers[i];
                    assert(ts[i as int] == ticker@);
                    match counts_get(&self.connection_counts, ticker.as_str()) {
                        Some(c) => {
                            if c > 0 {
                                counts_insert(&mut self.connection_counts, ticker.clone(), c - 1);
                            }
                        },
                        None => {},
                    }
                    assert(ts.take(i + 1).drop_last() =~= ts.take(i as int));
                    i = i + 1;
                }
                assert(ts.take(ts.len() as int) =~= ts);
            },
            None => {},
        }
    }

    /// The latest quote held for the ticker, if any.
    pub fn get_price(&self, ticker: &str) -> (found: Option<PriceData>)
        ensures
            found == table_get(self.price_view(), ticker@),
    {
        prices_get(&self.prices, ticker)
    }

    /// Holds `price_data` as the latest quote of `ticker`.
    pub fn update_price(&mut self, ticker: String, price_data: PriceData)
        ensures
            final(self).price_view() == old(self).price_view().insert(ticker@, price_data),
            final(self).connections == old(self).connections,
            final(self).count_view() == old(self).count_view(),
            old(self).counts_consistent() ==> final(self).counts_consistent(),
    {
        prices_insert(&mut self.prices, ticker, price_data);
    }

    /// Every ticker that has a quote, each once, in no promised order.
    pub fn get_all_tickers(&self) -> (tickers: Vec<String>)
        ensures
            texts(tickers@).no_duplicates(),
            texts(tickers@).to_set() == self.price_view().dom(),
    {
        prices_tickers(&self.prices)
    }

    /// The identifiers of the connections that follow the ticker, each once, in
    /// no promised order.
    pub fn subscribers_of(&self, ticker: &str) -> (ids: Vec<u128>)
        ensures
            ids@.no_duplicates(),
            ids@.to_set() == self.followers(ticker@),
            forall|id: u128|
                #[trigger] ids@.contains(id) <==> (self.connections@.contains_key(id) && exists|i: int|
                    0 <= i < self.connections@[id].tickers@.len() && #[trigger] self.connections@[id].tickers@[i]@
                        == ticker@),
    {
        let mut ids: Vec<u128> = Vec::new();
        let ghost mut found_at: Seq<int> = Seq::empty();
        let ghost m = self.connections@;
        let ghost seq = spec_hash_map_iter(&self.connections).remaining();
        let ghost follows = self.followers(ticker@);
        for entry in it: self.connections.iter()
            invariant
                m == self.connections@,
                seq == spec_hash_map_iter(&self.connections).remaining(),
                it.seq() == seq,
                seq.no_duplicates(),
                follows == self.followers(ticker@),
                found_at.len() == ids@.len(),
                forall|k: int|
                    0 <= k < ids@.len() ==> 0 <= #[trigger] found_at[k] < it.index(),
                forall|k: int|
                    0 <= k < ids@.len() ==> *seq[#[trigger] found_at[k]].0 == ids@[k],
                forall|k: int|
                    0 <= k < ids@.len() ==> follows.contains(#[trigger] ids@[k]),
                forall|j: int|
                    0 <= j < it.index() && texts(seq[j].1.tickers@).contains(ticker@)
                        ==> ids@.contains(*#[trigger] seq[j].0),
                ids@.no_duplicates(),
        {
            let (id, connection) = entry;
            let ghost at = it.index();
            assert(entry == seq[at]);
            assert(m.contains_key(*seq[at].0) && m[*seq[at].0] == *seq[at].1);
            let ghost before = ids@;
            if contains_text(&connection.tickers, ticker) {
                proof {
                    assert forall|k: int| 0 <= k < before.len() implies before[k] != *id by {
                        let j = found_at[k];
                        if before[k] == *id {
                            assert(m.contains_key(*seq[j].0) && m[*seq[j].0] == *seq[j].1);
                            assert(seq[j] == seq[at]);
                        }
                    }
                    found_at = found_at.push(at);
                    assert(follows.contains(*id));
                }
                ids.push(*id);
                proof {
                    assert forall|k: int| 0 <= k < ids@.len() implies 0 <= #[trigger] found_at[k] < at + 1 by {
                        if k < before.len() {
                        } else {
                            assert(found_at[k] == at);
                        }
                    }
                    assert forall|k: int| 0 <= k < ids@.len() implies *seq[#[trigger] found_at[k]].0 == ids@[k] by {
                        if k < before.len() {
                            assert(ids@[k] == before[k]);
                        } else {
                            assert(found_at[k] == at);
                        }
                    }
                    assert forall|k: int| 0 <= k < ids@.len() implies follows.contains(#[trigger] ids@[k]) by {
                        if k < before.len() {
                            assert(ids@[k] == before[k]);
                        }
                    }
                    assert forall|j: int|
                        0 <= j < at + 1 && texts(seq[j].1.tickers@).contains(ticker@)
                            implies ids@.contains(*#[trigger] seq[j].0) by {
                        if j < at {
                            assert(before.contains(*seq[j].0));
                            let k = choose|k: int| 0 <= k < before.len() && before[k] == *seq[j].0;
                            assert(ids@[k] == before[k]);
                        } else {
                            assert(ids@[before.len() as int] == *id);
                            assert(*seq[j].0 == *id);
                        }
                    }
                }
            }
        }
        proof {
            assert forall|x: u128| #[trigger] follows.contains(x) implies ids@.contains(x) by {
                assert(seq.contains((&x, &m[x])));
                let j = choose|j: int| 0 <= j < seq.len() && seq[j] == (&x, &m[x]);
                assert(*seq[j].0 == x);
            }
            assert forall|x: u128| ids@.contains(x) implies #[trigger] follows.contains(x) by {
                let k = choose|k: int| 0 <= k < ids@.len() && ids@[k] == x;
            }
            assert(ids@.to_set() =~= follows);
            assert forall|id: u128|
                #[trigger] ids@.contains(id) <==> (self.connections@.contains_key(id) && exists|i: int|
                    0 <= i < self.connections@[id].tickers@.len() && #[trigger] self.connections@[id].tickers@[i]@
                        == ticker@) by {
                self.law_followers_list_the_ticker(ticker@, id);
                assert(ids@.to_set().contains(id) == ids@.contains(id));
            }
        }
        ids
    }

    /// The count table once the connection under `id`, if any, is removed.
    pub open spec fn counts_without(&self, id: u128) -> Map<Seq<char>, usize> {
        if self.connections@.contains_key(id) {
            drop_all(self.count_view(), texts(self.connections@[id].tickers@))
        } else {
            self.count_view()
        }
    }

    /// Whether adding a connection that follows `tickers` leaves every count
    /// within `usize`.
    pub fn has_room_for(&self, tickers: &Vec<String>) -> (room: bool)
        ensures
            room == room_for(self.count_view(), texts(tickers@)),
    {
        let ghost ts = texts(tickers@);
        let mut i: usize = 0;
        while i < tickers.len()
            invariant
                i <= tickers@.len(),
                ts == texts(tickers@),
                forall|j: int| 0 <= j < i ==> #[trigger] self.count_of(ts[j]) + occurrences(ts, ts[j]) <= usize::MAX,
            decreases tickers.len() - i,
        {
            let t = tickers[i].as_str();
            assert(ts[i as int] == t@);
            let occ = count_occurrences(tickers, t);
            let held = self.get_connection_count(t);
            if held > usize::MAX - occ {
                return false;
            }
            i = i + 1;
        }
        proof {
            assert forall|u: Seq<char>| count_in(self.count_view(), u) + occurrences(ts, u) <= usize::MAX by {
                lemma_occurrences_bound(ts, u);
                if occurrences(ts, u) > 0 {
                    let j = choose|j: int| 0 <= j < ts.len() && ts[j] == u;
                    assert(self.count_of(ts[j]) + occurrences(ts, ts[j]) <= usize::MAX);
                }
            }
        }
        true
    }

    /// Replaces the tickers that the connection under `id` follows: the
    /// connection is removed, then added again with `tickers` where that leaves
    /// every count within `usize` (`true`); else it stays removed (`false`).
    pub fn resubscribe(&mut self, id: u128, tickers: Vec<String>) -> (added: bool)
        ensures
            added == room_for(old(self).counts_without(id), texts(tickers@)),
            added ==> final(self).connections@ == old(self).connections@.insert(
                id,
                ClientConnection { id, tickers },
            ),
            added ==> final(self).count_view() == bump_all(old(self).counts_without(id), texts(tickers@)),
            !added ==> final(self).connections@ == old(self).connections@.remove(id),
            !added ==> final(self).count_view() == old(self).counts_without(id),
            final(self).price_view() == old(self).price_view(),
            old(self).counts_consistent() ==> final(self).counts_consistent(),
    {
        self.remove_connection(id);
        if self.has_room_for(&tickers) {
            let ghost c = ClientConnection { id, tickers };
            self.add_connection(ClientConnection { id, tickers });
            assert(old(self).connections@.remove(id).insert(id, c) =~= old(self).connections@.insert(id, c));
            true
        } else {
            false
        }
    }

    /// The quote of the first of the tickers that has one, if any.
    pub fn first_available_price(&self, tickers: &Vec<String>) -> (found: Option<PriceData>)
        ensures
            found == first_price(self.price_view(), texts(tickers@)),
            tickers@.len() > 0 && self.price_view().contains_key(tickers@[0]@) ==> found == Some(
                self.price_view()[tickers@[0]@],
            ),
    {
        proof {
            law_first_price_is_least_quoted(self.price_view(), texts(tickers@));
        }
        let ghost ts = texts(tickers@);
        let mut i: usize = 0;
        assert(ts.skip(0) =~= ts);
        while i < tickers.len()
            invariant
                i <= tickers@.len(),
                ts == texts(tickers@),
                first_price(self.price_view(), ts) == first_price(self.price_view(), ts.skip(i as int)),
            decreases tickers.len() - i,
        {
            assert(ts.skip(i as int)[0] == tickers@[i as int]@);
            assert(ts.skip(i as int).drop_first() =~= ts.skip(i + 1));
            match self.get_price(tickers[i].as_str()) {
                Some(p) => {
                    return Some(p);
                },
                None => {},
            }
            i = i + 1;
        }
        None
    }

    /// The quotes of those of the tickers that have one, in the order of the tickers.
    pub fn current_prices(&self, tickers: &Vec<String>) -> (found: Vec<PriceData>)
        ensures
            found@ == prices_for(self.price_view(), texts(tickers@)),
            found@ == texts(tickers@).filter(|t: Seq<char>| self.price_view().contains_key(t)).map_values(
                |t: Seq<char>| self.price_view()[t],
            ),
    {
        proof {
            law_prices_for_are_quoted_tickers_in_order(self.price_view(), texts(tickers@));
        }
        let ghost ts = texts(tickers@);
        let mut found: Vec<PriceData> = Vec::new();
        let mut i: usize = 0;
        assert(ts.take(0) =~= Seq::<Seq<char>>::empty());
        while i < tickers.len()
            invariant
                i <= tickers@.len(),
                ts == texts(tickers@),
                found@ == prices_for(self.price_view(), ts.take(i as int)),
            decreases tickers.len() - i,
        {
            assert(ts.take(i + 1).drop_last() =~= ts.take(i as int));
            assert(ts.take(i + 1).last() == tickers@[i as int]@);
            match self.get_price(tickers[i].as_str()) {
                Some(p) => {
                    found.push(p);
                },
                None => {},
            }
            i = i + 1;
        }
        assert(ts.take(ts.len() as int) =~= ts);
        found
    }

    /// Takes in a freshly fetched quote. It is kept, and the connections that
    /// follow its ticker are returned to be told, when the ticker had no quote yet
    /// or the price moved significantly (`significant_change`); else nothing changes.
    pub fn record_fetched_price(&mut self, price_data: PriceData, significant_change: bool) -> (notify: Option<Vec<u128>>)
        ensures
            ({
                let publish = !old(self).price_view().contains_key(price_data.ticker@) || significant_change;
                &&& publish ==> final(self).price_view() == old(self).price_view().insert(price_data.ticker@, price_data)
                &&& !publish ==> final(self).price_view() == old(self).price_view()
                &&& final(self).connections == old(self).connections
                &&& final(self).count_view() == old(self).count_view()
                &&& match notify {
                    Some(ids) => publish && ids@.no_duplicates() && ids@.to_set() == final(self).followers(price_data.ticker@),
                    None => !publish,
                }
            }),
    {
        let known = self.get_price(price_data.ticker.as_str());
        if known.is_none() || significant_change {
            let ticker = price_data.ticker.clone();
            let key = price_data.ticker.clone();
            self.update_price(key, price_data);
            let ids = self.subscribers_of(ticker.as_str());
            Some(ids)
        } else {
            None
        }
    }

    /// How many connections are counted as following the ticker.
    pub fn get_connection_count(&self, ticker: &str) -> (n: usize)
        ensures
            n == self.count_of(ticker@),
    {
        match counts_get(&self.connection_counts, ticker) {
            Some(n) => n,
            None => 0,
        }
    }
}

} // verus!
