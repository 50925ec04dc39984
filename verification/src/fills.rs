//! Fill-event decoding: side classification, exchange attribution, live-trade
//! and whale-alert construction.
//!
//! A fill event carries maker and taker asset identifiers and amounts. One of
//! the two assets is cash: a zero maker asset means the maker paid USDC for
//! tokens (a buy); a zero taker asset means the maker sold tokens for USDC.
//! Both nonzero is a token split, not a trade.

use vstd::prelude::*;

use crate::digest::{digest_of, integer_id_of, to_integer_id, cache_key};
use crate::market::MarketInfo;
use crate::money::{
    format_usdc, format_usdc_raw, is_whale, parse_raw_or_zero, price_micro, price_micro_of,
    raw_or_zero, usdc_display_of, usdc_display_of_raw, PRICE_USDC_CAP, WHALE_THRESHOLD_RAW,
};
use crate::text::{lower_of, str_eq, eq_ignore_case};

verus! {

/// Transaction context attached to every webhook event.
#[derive(Clone, Debug)]
pub struct TxInfo {
    pub transaction_hash: String,
    pub block_number: u64,
    /// Seconds since epoch as a decimal string; empty when the indexer had
    /// none.
    pub block_timestamp: String,
}

/// A decoded exchange fill event, fields as the indexer delivers them.
#[derive(Clone, Debug)]
pub struct FillEvent {
    pub maker_asset_id: String,
    pub taker_asset_id: String,
    pub maker_amount: String,
    pub taker_amount: String,
    pub maker: String,
    pub contract: String,
    pub tx: TxInfo,
}

#[derive(Clone, Copy, Debug, PartialEq, Eq, Structural)]
pub enum Side {
    Buy,
    Sell,
}

pub open spec fn side_label(s: Side) -> Seq<char> {
    match s {
        Side::Buy => "buy"@,
        Side::Sell => "sell"@,
    }
}

pub fn side_to_string(s: Side) -> (r: String)
    ensures
        r@ == side_label(s),
{
    match s {
        Side::Buy => "buy".to_owned(),
        Side::Sell => "sell".to_owned(),
    }
}

/// Which side a fill is on: a zero maker asset is a buy, a zero taker asset
/// is a sell, anything else is a mint and no trade.
pub open spec fn side_of(maker_asset: Seq<char>, taker_asset: Seq<char>) -> Option<Side> {
    if maker_asset == "0"@ {
        Some(Side::Buy)
    } else if taker_asset == "0"@ {
        Some(Side::Sell)
    } else {
        None
    }
}

/// The traded asset: the non-cash one.
pub open spec fn traded_asset_of(ev: FillEvent) -> Seq<char> {
    if ev.maker_asset_id@ == "0"@ {
        ev.taker_asset_id@
    } else {
        ev.maker_asset_id@
    }
}

/// The cash leg of the fill, as a raw amount string.
pub open spec fn usdc_raw_of(ev: FillEvent) -> Seq<char> {
    if ev.maker_asset_id@ == "0"@ {
        ev.maker_amount@
    } else {
        ev.taker_amount@
    }
}

/// The token leg of the fill, as a raw amount string.
pub open spec fn token_raw_of(ev: FillEvent) -> Seq<char> {
    if ev.maker_asset_id@ == "0"@ {
        ev.taker_amount@
    } else {
        ev.maker_amount@
    }
}

/// The negative-risk exchange contract; fills from any other contract belong
/// to the plain CTF exchange.
pub open spec fn negrisk_contract() -> Seq<char> {
    "0xC5d563A36AE78145C45a50134d48A1215220f80a"@
}

pub open spec fn exchange_label_of(contract: Seq<char>) -> Seq<char> {
    if lower_of(contract) == lower_of(negrisk_contract()) {
        "neg_risk"@
    } else {
        "ctf"@
    }
}

/// Names the exchange a contract address belongs to, case-insensitively.
pub fn exchange_of_contract(contract: &str) -> (r: String)
    ensures
        r@ == exchange_label_of(contract@),
{
    if eq_ignore_case(contract, "0xC5d563A36AE78145C45a50134d48A1215220f80a") {
        "neg_risk".to_owned()
    } else {
        "ctf".to_owned()
    }
}

/// The four classified parts of a trade fill.
pub struct FillParts {
    pub side: Side,
    pub asset_id: String,
    pub usdc_raw: String,
    pub token_raw: String,
}

/// Classify a fill event: which side it is, which asset traded, and which
/// amounts are the cash and token legs. `None` exactly on token splits
/// (both asset identifiers nonzero).
pub fn classify_fill(ev: &FillEvent) -> (r: Option<FillParts>)
    ensures
        match r {
            Some(p) => {
                &&& side_of(ev.maker_asset_id@, ev.taker_asset_id@) == Some(p.side)
                &&& p.asset_id@ == traded_asset_of(*ev)
                &&& p.usdc_raw@ == usdc_raw_of(*ev)
                &&& p.token_raw@ == token_raw_of(*ev)
            },
            None => side_of(ev.maker_asset_id@, ev.taker_asset_id@) is None,
        },
{
    if str_eq(self_str(&ev.maker_asset_id), "0") {
        Some(FillParts {
            side: Side::Buy,
            asset_id: ev.taker_asset_id.clone(),
            usdc_raw: ev.maker_amount.clone(),
            token_raw: ev.taker_amount.clone(),
        })
    } else if str_eq(self_str(&ev.taker_asset_id), "0") {
        Some(FillParts {
            side: Side::Sell,
            asset_id: ev.maker_asset_id.clone(),
            usdc_raw: ev.taker_amount.clone(),
            token_raw: ev.maker_amount.clone(),
        })
    } else {
        None
    }
}

fn self_str(s: &String) -> (r: &str)
    ensures
        r@ == s@,
{
    s.as_str()
}

/// The display price of a fill: cash over tokens at six decimals, zero when
/// no tokens moved or an amount is unreadable or beyond the exact range.
pub open spec fn price_display_of(usdc_s: Seq<char>, token_s: Seq<char>) -> Seq<char> {
    let u = raw_or_zero(usdc_s);
    let t = raw_or_zero(token_s);
    let pm = if u <= PRICE_USDC_CAP {
        price_micro_of(u, t)
    } else {
        0
    };
    usdc_display_of_raw(pm)
}

/// Renders the fill price from the raw amount strings.
pub fn format_price(usdc_s: &str, token_s: &str) -> (r: String)
    ensures
        r@ == price_display_of(usdc_s@, token_s@),
{
    let u = parse_raw_or_zero(usdc_s);
    let t = parse_raw_or_zero(token_s);
    let pm = if u <= PRICE_USDC_CAP {
        price_micro(u, t)
    } else {
        0
    };
    format_usdc_raw(pm)
}

/// A live trade as broadcast to stream subscribers.
#[derive(Clone, Debug)]
pub struct LiveTrade {
    pub tx_hash: String,
    pub block_timestamp: String,
    pub trader: String,
    pub side: String,
    pub asset_id: String,
    pub amount: String,
    pub price: String,
    pub usdc_amount: String,
    pub question: String,
    pub outcome: String,
    pub category: String,
    pub block_number: u64,
    /// The significand digest of the traded asset; used for per-client
    /// filtering, never serialized outward.
    pub cache_key: String,
}

/// An alert as broadcast to alert-stream subscribers.
#[derive(Clone, Debug)]
pub enum Alert {
    WhaleTrade {
        timestamp: String,
        exchange: String,
        side: String,
        trader: String,
        asset_id: String,
        usdc_amount: String,
        token_amount: String,
        tx_hash: String,
        block_number: u64,
        question: Option<String>,
        outcome: Option<String>,
    },
    MarketResolution {
        timestamp: String,
        condition_id: String,
        oracle: String,
        question_id: String,
        payout_numerators: Vec<String>,
        tx_hash: String,
        block_number: u64,
        question: Option<String>,
        winning_outcome: Option<String>,
        outcomes: Vec<String>,
        token_id: Option<String>,
    },
    FailedSettlement {
        tx_hash: String,
        block_number: u64,
        timestamp: String,
        from_address: String,
        to_contract: String,
        function_name: String,
        gas_used: String,
    },
}

/// The live trade a fill event yields, enriched from `info`: every field
/// pinned to the event and the cache entry.
pub open spec fn live_trade_of(t: LiveTrade, ev: FillEvent, info: Option<MarketInfo>) -> bool {
    &&& t.tx_hash@ == ev.tx.transaction_hash@
    &&& t.block_timestamp@ == ev.tx.block_timestamp@
    &&& t.trader@ == ev.maker@
    &&& (side_of(ev.maker_asset_id@, ev.taker_asset_id@) matches Some(s) && t.side@ == side_label(
        s,
    ))
    &&& t.asset_id@ == match info {
        Some(i) => i.gamma_token_id@,
        None => integer_id_of(traded_asset_of(ev)),
    }
    &&& t.amount@ == usdc_display_of(token_raw_of(ev))
    &&& t.price@ == price_display_of(usdc_raw_of(ev), token_raw_of(ev))
    &&& t.usdc_amount@ == usdc_display_of(usdc_raw_of(ev))
    &&& t.question@ == match info {
        Some(i) => i.question@,
        None => Seq::<char>::empty(),
    }
    &&& t.outcome@ == match info {
        Some(i) => i.outcome@,
        None => Seq::<char>::empty(),
    }
    &&& t.category@ == match info {
        Some(i) => i.category@,
        None => Seq::<char>::empty(),
    }
    &&& t.block_number == ev.tx.block_number
    &&& t.cache_key@ == digest_of(traded_asset_of(ev))
}

/// The whale alert a fill event yields, enriched from `info`.
pub open spec fn whale_alert_of(a: Alert, ev: FillEvent, info: Option<MarketInfo>) -> bool {
    a matches Alert::WhaleTrade {
        timestamp,
        exchange,
        side,
        trader,
        asset_id,
        usdc_amount,
        token_amount,
        tx_hash,
        block_number,
        question,
        outcome,
    } && {
        &&& timestamp@ == ev.tx.block_timestamp@
        &&& exchange@ == exchange_label_of(ev.contract@)
        &&& (side_of(ev.maker_asset_id@, ev.taker_asset_id@) matches Some(s2) && side@
            == side_label(s2))
        &&& trader@ == ev.maker@
        &&& asset_id@ == traded_asset_of(ev)
        &&& usdc_amount@ == usdc_display_of(usdc_raw_of(ev))
        &&& token_amount@ == usdc_display_of(token_raw_of(ev))
        &&& tx_hash@ == ev.tx.transaction_hash@
        &&& block_number == ev.tx.block_number
        &&& question == match info {
            Some(i) => Some(i.question),
            None => None::<String>,
        }
        &&& outcome == match info {
            Some(i) => Some(i.outcome),
            None => None::<String>,
        }
    }
}

/// The cache entry handed in, as a value, for use in contracts.
pub open spec fn info_val(info: Option<&MarketInfo>) -> Option<MarketInfo> {
    match info {
        Some(i) => Some(*i),
        None => None,
    }
}

/// Build the live trade a fill event broadcasts, enriched from the given
/// cache entry. `None` exactly on token splits.
pub fn build_live_trade(ev: &FillEvent, info: Option<&MarketInfo>) -> (r: Option<LiveTrade>)
    ensures
        r is Some <==> side_of(ev.maker_asset_id@, ev.taker_asset_id@) is Some,
        r matches Some(t) ==> live_trade_of(t, *ev, info_val(info)),
{
    let parts = match classify_fill(ev) {
        Some(p) => p,
        None => {
            return None;
        },
    };
    let (question, outcome, category, asset_id) = match info {
        Some(i) => (
            i.question.clone(),
            i.outcome.clone(),
            i.category.clone(),
            i.gamma_token_id.clone(),
        ),
        None => (String::new(), String::new(), String::new(), to_integer_id(parts.asset_id.as_str())),
    };
    let key = cache_key(parts.asset_id.as_str());
    Some(LiveTrade {
        tx_hash: ev.tx.transaction_hash.clone(),
        block_timestamp: ev.tx.block_timestamp.clone(),
        trader: ev.maker.clone(),
        side: side_to_string(parts.side),
        asset_id,
        amount: format_usdc(parts.token_raw.as_str()),
        price: format_price(parts.usdc_raw.as_str(), parts.token_raw.as_str()),
        usdc_amount: format_usdc(parts.usdc_raw.as_str()),
        question,
        outcome,
        category,
        block_number: ev.tx.block_number,
        cache_key: key,
    })
}

/// Whether a fill event is a whale trade: it classifies as a trade and its
/// raw cash leg reaches the threshold. The threshold is closed at the bottom:
/// exactly 25,000 USDC qualifies, one raw unit less does not.
pub open spec fn is_whale_fill(ev: FillEvent) -> bool {
    &&& side_of(ev.maker_asset_id@, ev.taker_asset_id@) is Some
    &&& raw_or_zero(usdc_raw_of(ev)) >= WHALE_THRESHOLD_RAW
}

/// Build the whale alert a fill event raises, when it does: `None` on token
/// splits and on fills under the whale threshold.
pub fn parse_order_filled(ev: &FillEvent, info: Option<&MarketInfo>) -> (r: Option<Alert>)
    ensures
        r is Some <==> is_whale_fill(*ev),
        r matches Some(a) ==> whale_alert_of(a, *ev, info_val(info)),
{
    let parts = match classify_fill(ev) {
        Some(p) => p,
        None => {
            return None;
        },
    };
    let usdc_raw_n = parse_raw_or_zero(parts.usdc_raw.as_str());
    if !is_whale(usdc_raw_n) {
        return None;
    }
    Some(Alert::WhaleTrade {
        timestamp: ev.tx.block_timestamp.clone(),
        exchange: exchange_of_contract(ev.contract.as_str()),
        side: side_to_string(parts.side),
        trader: ev.maker.clone(),
        asset_id: parts.asset_id,
        usdc_amount: format_usdc(parts.usdc_raw.as_str()),
        token_amount: format_usdc(parts.token_raw.as_str()),
        tx_hash: ev.tx.transaction_hash.clone(),
        block_number: ev.tx.block_number,
        question: match info {
            Some(i) => Some(i.question.clone()),
            None => None,
        },
        outcome: match info {
            Some(i) => Some(i.outcome.clone()),
            None => None,
        },
    })
}

} // verus!
