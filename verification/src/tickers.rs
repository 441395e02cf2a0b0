//! How a ticker that a client names is matched against the supported tickers.

use vstd::prelude::*;
use crate::config::AppConfig;
use crate::state::contains_text;
use crate::text::{lowercase, texts, to_lower, to_upper, uppercase};

verus! {

/// A requested ticker is kept in a subscription when its lower- or upper-case
/// form is supported.
pub open spec fn subscribable(all: Seq<Seq<char>>, t: Seq<char>) -> bool {
    all.contains(lowercase(t)) || all.contains(uppercase(t))
}

/// The form a kept ticker is followed under: its upper-case form where that is
/// supported, else its lower-case form.
pub open spec fn subscription_form(all: Seq<Seq<char>>, t: Seq<char>) -> Seq<char> {
    if all.contains(uppercase(t)) {
        uppercase(t)
    } else {
        lowercase(t)
    }
}

/// The tickers a subscription request resolves to: the subscribable requested
/// tickers, in order, each in its subscription form.
pub open spec fn resolved_subscription(requested: Seq<Seq<char>>, all: Seq<Seq<char>>) -> Seq<Seq<char>>
    decreases requested.len(),
{
    if requested.len() == 0 {
        Seq::empty()
    } else {
        let earlier = resolved_subscription(requested.drop_last(), all);
        if subscribable(all, requested.last()) {
            earlier.push(subscription_form(all, requested.last()))
        } else {
            earlier
        }
    }
}

/// The ticker a price request is answered for, if the request names a supported
/// ticker in lower or upper case: the lower-case form where it is a crypto ticker,
/// else the upper-case form.
pub open spec fn price_request_ticker(config: AppConfig, requested: Seq<char>) -> Option<Seq<char>> {
    let all = config.supported();
    if !all.contains(lowercase(requested)) && !all.contains(uppercase(requested)) {
        None
    } else if texts(config.supported_crypto_tickers@).contains(lowercase(requested)) {
        Some(lowercase(requested))
    } else {
        Some(uppercase(requested))
    }
}

/// Every ticker a subscription resolves to is supported.
pub proof fn law_resolved_tickers_are_supported(requested: Seq<Seq<char>>, all: Seq<Seq<char>>)
    ensures
        forall|i: int|
            0 <= i < resolved_subscription(requested, all).len() ==> all.contains(
                #[trigger] resolved_subscription(requested, all)[i],
            ),
    decreases requested.len(),
{
    if requested.len() > 0 {
        let earlier = resolved_subscription(requested.drop_last(), all);
        law_resolved_tickers_are_supported(requested.drop_last(), all);
        let r = resolved_subscription(requested, all);
        assert forall|i: int| 0 <= i < r.len() implies all.contains(#[trigger] r[i]) by {
            if i < earlier.len() {
                assert(r[i] == earlier[i]);
            }
        }
    }
}

/// A subscription request resolves to exactly the requested tickers whose lower-
/// or upper-case form is supported, all of them and in request order, each in its
/// upper-case form where that is supported and else in its lower-case form.
pub proof fn law_resolution_keeps_every_subscribable_ticker(requested: Seq<Seq<char>>, all: Seq<Seq<char>>)
    ensures
        resolved_subscription(requested, all) == requested.filter(
            |t: Seq<char>| all.contains(lowercase(t)) || all.contains(uppercase(t)),
        ).map_values(
            |t: Seq<char>|
                if all.contains(uppercase(t)) {
                    uppercase(t)
                } else {
                    lowercase(t)
                },
        ),
    decreases requested.len(),
{
    let keep = |t: Seq<char>| all.contains(lowercase(t)) || all.contains(uppercase(t));
    let form = |t: Seq<char>|
        if all.contains(uppercase(t)) {
            uppercase(t)
        } else {
            lowercase(t)
        };
    reveal(Seq::filter);
    if requested.len() == 0 {
        assert(requested.filter(keep) =~= Seq::<Seq<char>>::empty());
        assert(requested.filter(keep).map_values(form) =~= Seq::<Seq<char>>::empty());
    } else {
        let pre = requested.drop_last();
        law_resolution_keeps_every_subscribable_ticker(pre, all);
        let last = requested.last();
        if keep(last) {
            assert(requested.filter(keep) == pre.filter(keep).push(last));
            assert(pre.filter(keep).push(last).map_values(form) =~= pre.filter(keep).map_values(form).push(
                form(last),
            ));
        } else {
            assert(requested.filter(keep) == pre.filter(keep));
        }
    }
}

/// Every requested ticker whose lower- or upper-case form is supported is
/// followed after the request, in that form.
pub proof fn law_resolution_is_complete(requested: Seq<Seq<char>>, all: Seq<Seq<char>>, i: int)
    requires
        0 <= i < requested.len(),
        all.contains(lowercase(requested[i])) || all.contains(uppercase(requested[i])),
    ensures
        resolved_subscription(requested, all).contains(
            if all.contains(uppercase(requested[i])) {
                uppercase(requested[i])
            } else {
                lowercase(requested[i])
            },
        ),
    decreases requested.len(),
{
    let r = resolved_subscription(requested, all);
    let pre = requested.drop_last();
    let earlier = resolved_subscription(pre, all);
    if i == requested.len() - 1 {
        assert(r[r.len() - 1] == r.last());
    } else {
        assert(pre[i] == requested[i]);
        law_resolution_is_complete(pre, all, i);
        let k = choose|k: int| 0 <= k < earlier.len() && earlier[k] == (if all.contains(uppercase(requested[i])) {
            uppercase(requested[i])
        } else {
            lowercase(requested[i])
        });
        assert(r[k] == earlier[k]);
    }
}

/// A price request whose lower-case form is a supported crypto ticker is answered
/// for that lower-case form, whatever the case of the request; one that names no
/// supported ticker in lower or upper case is refused; any other is answered for
/// its upper-case form.
pub proof fn law_price_request_prefers_crypto_lowercase(config: AppConfig, requested: Seq<char>)
    ensures
        texts(config.supported_crypto_tickers@).contains(lowercase(requested)) ==> price_request_ticker(
            config,
            requested,
        ) == Some(lowercase(requested)),
        !(texts(config.supported_crypto_tickers@) + texts(config.supported_stock_tickers@)).contains(
            lowercase(requested),
        ) && !(texts(config.supported_crypto_tickers@) + texts(
            config.supported_stock_tickers@,
        )).contains(uppercase(requested)) ==> price_request_ticker(config, requested) is None,
        ((texts(config.supported_crypto_tickers@) + texts(config.supported_stock_tickers@)).contains(
            lowercase(requested),
        ) || (texts(config.supported_crypto_tickers@) + texts(config.supported_stock_tickers@)).contains(
            uppercase(requested),
        )) && !texts(config.supported_crypto_tickers@).contains(lowercase(requested))
            ==> price_request_ticker(config, requested) == Some(uppercase(requested)),
{
    let crypto = texts(config.supported_crypto_tickers@);
    let all = crypto + texts(config.supported_stock_tickers@);
    if crypto.contains(lowercase(requested)) {
        let k = choose|k: int| 0 <= k < crypto.len() && crypto[k] == lowercase(requested);
        assert(all[k] == crypto[k]);
    }
}

/// The tickers a subscription request resolves to: without a list, every
/// supported ticker; with one, the requested tickers whose lower- or upper-case
/// form is supported, each in its upper-case form where that is supported and
/// else in its lower-case form.
pub fn resolve_subscription(requested: Option<Vec<String>>, config: &AppConfig) -> (tickers: Vec<String>)
    ensures
        match requested {
            Some(r) => texts(tickers@) == resolved_subscription(texts(r@), config.supported()),
            None => tickers@ == config.supported_crypto_tickers@ + config.supported_stock_tickers@,
        },
        requested matches Some(r) ==> texts(tickers@) == texts(r@).filter(
            |t: Seq<char>| config.supported().contains(lowercase(t)) || config.supported().contains(uppercase(t)),
        ).map_values(
            |t: Seq<char>|
                if config.supported().contains(uppercase(t)) {
                    uppercase(t)
                } else {
                    lowercase(t)
                },
        ),
{
    proof {
        if requested is Some {
            law_resolution_keeps_every_subscribable_ticker(texts(requested->0@), config.supported());
        }
    }
    match requested {
        None => config.all_supported_tickers(),
        Some(list) => {
            let all = config.all_supported_tickers();
            let ghost req = texts(list@);
            let mut tickers: Vec<String> = Vec::new();
            let mut i: usize = 0;
            assert(req.take(0) =~= Seq::<Seq<char>>::empty());
            while i < list.len()
                invariant
                    i <= list@.len(),
                    req == texts(list@),
                    texts(all@) == config.supported(),
                    texts(tickers@) == resolved_subscription(req.take(i as int), config.supported()),
                decreases list.len() - i,
            {
                let t = &list[i];
                assert(req.take(i + 1).drop_last() =~= req.take(i as int));
                assert(req.take(i + 1).last() == t@);
                let lower = to_lower(t.as_str());
                let upper = to_upper(t.as_str());
                let has_lower = contains_text(&all, lower.as_str());
                let has_upper = contains_text(&all, upper.as_str());
                if has_lower || has_upper {
                    let form = if has_upper {
                        upper
                    } else {
                        lower
                    };
                    let ghost before = tickers@;
                    tickers.push(form);
                    assert(texts(tickers@) =~= texts(before).push(form@));
                }
                i = i + 1;
            }
            assert(req.take(req.len() as int) =~= req);
            tickers
        },
    }
}

/// The ticker a price request is answered for, or `None` where the request names
/// no supported ticker in lower or upper case.
pub fn resolve_price_ticker(config: &AppConfig, requested: &str) -> (ticker: Option<String>)
    ensures
        match ticker {
            Some(t) => price_request_ticker(*config, requested@) == Some(t@),
            None => price_request_ticker(*config, requested@) is None,
        },
        texts(config.supported_crypto_tickers@).contains(lowercase(requested@)) ==> (ticker matches Some(t)
            && t@ == lowercase(requested@)),
{
    proof {
        law_price_request_prefers_crypto_lowercase(*config, requested@);
    }
    let lower = to_lower(requested);
    let upper = to_upper(requested);
    let all = config.all_supported_tickers();
    if !contains_text(&all, lower.as_str()) && !contains_text(&all, upper.as_str()) {
        None
    } else if contains_text(&config.supported_crypto_tickers, lower.as_str()) {
        Some(lower)
    } else {
        Some(upper)
    }
}

} // verus!
