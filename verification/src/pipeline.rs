//! The dual-source event pipeline: backfill detection, the mutual-exclusion
//! gate between the subscription and the webhook, and what the webhook emits
//! for each event.
//!
//! The subscription owns live broadcasts while `ws_active` holds; the webhook
//! broadcasts only while it does not, and backfill events never broadcast.

use vstd::prelude::*;

use crate::fills::{
    build_live_trade, info_val, is_whale_fill, live_trade_of, parse_order_filled, side_of,
    whale_alert_of, Alert, FillEvent, LiveTrade,
};
use crate::market::MarketInfo;
use crate::numstr::{all_digits, dec_val, parse_dec_capped};
use crate::hexstr::{all_hex, hex_num_val, parse_hex_capped};
use crate::digest::str_to_chars;

verus! {

/// A decimal or hex timestamp string read as a signed number; `None` when
/// malformed or out of `i64`'s range.
pub open spec fn signed_of(s: Seq<char>, hex: bool) -> Option<int> {
    let sl: int = if s.len() > 0 && (s[0] == '-' || s[0] == '+') {
        1
    } else {
        0
    };
    let d = s.subrange(sl, s.len() as int);
    let neg = s.len() > 0 && s[0] == '-';
    let mag: nat = if hex {
        hex_num_val(d)
    } else {
        dec_val(d)
    };
    let ok: bool = d.len() > 0 && (if hex {
        all_hex(d)
    } else {
        all_digits(d)
    });
    if ok && (if neg {
        mag <= 0x8000_0000_0000_0000
    } else {
        mag <= 0x7FFF_FFFF_FFFF_FFFF
    }) {
        Some(
            if neg {
                -(mag as int)
            } else {
                mag as int
            },
        )
    } else {
        None
    }
}

/// An event timestamp string read as seconds since epoch: hex when
/// `0x`-prefixed, decimal otherwise.
pub open spec fn event_ts_of(s: Seq<char>) -> Option<int> {
    if s.len() >= 2 && s[0] == '0' && s[1] == 'x' {
        signed_of(s.skip(2), true)
    } else {
        signed_of(s, false)
    }
}

/// Whether an event is live at wall-clock `now`: its timestamp is within five
/// minutes of `now`. A missing or unreadable timestamp fails open — the event
/// counts as live.
pub open spec fn is_live_of(ts: Option<Seq<char>>, now: i64) -> bool {
    match ts {
        None => true,
        Some(s) => match event_ts_of(s) {
            None => true,
            Some(t) => -300 < now - t < 300,
        },
    }
}

fn parse_signed(v: &Vec<char>, from: usize, hex: bool) -> (r: Option<i64>)
    requires
        from <= v@.len(),
    ensures
        ({
            let s = v@.subrange(from as int, v@.len() as int);
            match r {
                Some(t) => signed_of(s, hex) == Some(t as int),
                None => signed_of(s, hex) is None,
            }
        }),
{
    let ghost s = v@.subrange(from as int, v@.len() as int);
    let n = v.len();
    let sl: usize = if from < n && (v[from] == '-' || v[from] == '+') {
        from + 1
    } else {
        from
    };
    let neg = from < n && v[from] == '-';
    proof {
        if from < n {
            assert(s[0] == v@[from as int]);
        }
        assert(s.subrange((sl - from) as int, s.len() as int) =~= v@.subrange(
            sl as int,
            n as int,
        ));
    }
    let cap: u128 = if neg {
        0x8000_0000_0000_0000
    } else {
        0x7FFF_FFFF_FFFF_FFFF
    };
    let mag = if hex {
        parse_hex_capped(v, sl, n, cap)
    } else {
        parse_dec_capped(v, sl, n, cap)
    };
    match mag {
        None => None,
        Some(m) => {
            if neg {
                if m == 0x8000_0000_0000_0000 {
                    Some(i64::MIN)
                } else {
                    Some(-(m as i64))
                }
            } else {
                Some(m as i64)
            }
        },
    }
}

/// Whether an event's timestamp string marks it live at `now`. Absent or
/// unreadable timestamps fail open.
pub fn is_event_live(ts: Option<&String>, now: i64) -> (r: bool)
    ensures
        r == is_live_of(
            match ts {
                Some(s) => Some(s@),
                None => None,
            },
            now,
        ),
{
    let s = match ts {
        None => {
            return true;
        },
        Some(s) => s,
    };
    let v = str_to_chars(s.as_str());
    let n = v.len();
    let t: Option<i64> = if n >= 2 && v[0] == '0' && v[1] == 'x' {
        proof {
            assert(v@.subrange(2, n as int) =~= v@.skip(2));
        }
        parse_signed(&v, 2, true)
    } else {
        proof {
            assert(v@.subrange(0, n as int) =~= v@);
        }
        parse_signed(&v, 0, false)
    };
    match t {
        None => true,
        Some(t) => {
            let delta = (now as i128) - (t as i128);
            -300 < delta && delta < 300
        },
    }
}

/// The webhook may broadcast a fill only when the event is live and the
/// subscription is not driving the stream.
pub open spec fn webhook_may_broadcast(ws_active: bool, is_live: bool) -> bool {
    is_live && !ws_active
}

/// Everything the webhook does with one fill event: enrichment metadata is
/// persisted whenever the fill names a cached market; the live trade and the
/// whale alert go out only in fallback mode on a live event.
pub struct WebhookFillOutcome {
    pub persist_metadata: bool,
    pub trade: Option<LiveTrade>,
    pub whale: Option<Alert>,
}

/// Decide what one webhook-delivered fill event does, under the
/// mutual-exclusion gate.
pub fn handle_webhook_fill(
    ev: &FillEvent,
    info: Option<&MarketInfo>,
    ws_active: bool,
    is_live: bool,
) -> (r: WebhookFillOutcome)
    ensures
        r.persist_metadata == (side_of(ev.maker_asset_id@, ev.taker_asset_id@) is Some
            && info is Some),
        r.trade is Some <==> (webhook_may_broadcast(ws_active, is_live) && side_of(
            ev.maker_asset_id@,
            ev.taker_asset_id@,
        ) is Some),
        r.trade matches Some(t) ==> live_trade_of(t, *ev, info_val(info)),
        r.whale is Some <==> (webhook_may_broadcast(ws_active, is_live) && is_whale_fill(*ev)),
        r.whale matches Some(a) ==> whale_alert_of(a, *ev, info_val(info)),
{
    let trade = build_live_trade(ev, info);
    let persist_metadata = trade.is_some() && info.is_some();
    if is_live && !ws_active {
        let whale = parse_order_filled(ev, info);
        WebhookFillOutcome { persist_metadata, trade, whale }
    } else {
        WebhookFillOutcome { persist_metadata, trade: None, whale: None }
    }
}

/// Whether a market-filtered stream client receives a trade: its asset's
/// digest must be among the client's subscribed digests.
pub fn trade_passes_market_filter(
    trade: &LiveTrade,
    prefixes: &crate::assoc::AssocMap<bool>,
) -> (r: bool)
    requires
        prefixes.wf(),
    ensures
        r == prefixes.spec_contains(trade.cache_key@),
{
    prefixes.contains(trade.cache_key.as_str())
}

/// Whether a signal-stream client receives a trade: its trader, lowercased,
/// must be among the client's curated addresses.
pub fn trade_passes_trader_filter(
    trade: &LiveTrade,
    traders: &crate::assoc::AssocMap<bool>,
) -> (r: bool)
    requires
        traders.wf(),
    ensures
        r == traders.spec_contains(crate::text::lower_of(trade.trader@)),
{
    let lowered = crate::text::to_lower(trade.trader.as_str());
    traders.contains(lowered.as_str())
}

/// Exactly one of a list identifier and a leaderboard depth may drive a
/// signal stream.
pub fn signal_params_valid(list_id: Option<&String>, top_n: Option<u32>) -> (r: bool)
    ensures
        r == !(list_id is Some && top_n is Some),
{
    !(list_id.is_some() && top_n.is_some())
}

/// Mutual exclusion of the two fill sources: while the subscription drives
/// the stream (`ws_active`), the webhook gate is shut, so for one fill event
/// at most one source broadcasts.
pub proof fn lemma_fill_sources_exclusive(ws_active: bool, is_live: bool)
    ensures
        ws_active ==> !webhook_may_broadcast(ws_active, is_live),
{
}

/// Fallback: with the subscription down, the webhook emits every live fill;
/// the moment the subscription reconnects and raises the flag, it stops.
pub proof fn lemma_webhook_fallback(is_live: bool)
    ensures
        is_live ==> webhook_may_broadcast(false, is_live),
        !webhook_may_broadcast(true, is_live),
{
}

} // verus!
