//! Realized PnL: the single canonical formula, agreement of the aggregated
//! and raw-trade views, and position settlement classification.
//!
//! All money is exact: amounts in micro-USDC, prices in micro-USDC per token,
//! PnL in micro-squared units (micro-USDC times micro-price), so no view can
//! drift from another by rounding.

use vstd::prelude::*;

use crate::fills::Side;
use crate::money::{display_micro_of, parse_display_micro};

verus! {

/// A signed display amount read in micro-USDC; zero when unreadable.
pub open spec fn money_micro_of(s: Seq<char>) -> int {
    if s.len() > 0 && s[0] == '-' {
        -(display_micro_of(s.skip(1), u64::MAX as nat) as int)
    } else {
        display_micro_of(s, u64::MAX as nat) as int
    }
}

/// Whether a signed display amount is readable at all.
pub open spec fn money_readable(s: Seq<char>) -> bool {
    if s.len() > 0 && s[0] == '-' {
        crate::money::display_readable(s.skip(1), u64::MAX as nat)
    } else {
        crate::money::display_readable(s, u64::MAX as nat)
    }
}

/// A signed display amount, or the given default when unreadable. Prices
/// default to one half: an unreadable price settles nothing and wins nothing.
pub open spec fn money_micro_or(s: Seq<char>, default: int) -> int {
    if money_readable(s) {
        money_micro_of(s)
    } else {
        default
    }
}

/// Reads a signed display amount; `None` exactly when it is unreadable.
pub fn parse_money_checked(s: &str) -> (r: Option<i128>)
    ensures
        r is Some <==> money_readable(s@),
        r matches Some(x) ==> x as int == money_micro_of(s@) && -(u64::MAX as int) <= x as int
            <= u64::MAX as int,
{
    let n = s.unicode_len();
    if n > 0 && s.get_char(0) == '-' {
        let rest = s.substring_char(1, n);
        proof {
            assert(rest@ =~= s@.skip(1));
        }
        match crate::money::parse_display_micro_checked(rest) {
            Some(x) => Some(-(x as i128)),
            None => None,
        }
    } else {
        match crate::money::parse_display_micro_checked(s) {
            Some(x) => Some(x as i128),
            None => None,
        }
    }
}

/// Reads a signed display amount in micro-USDC.
pub fn parse_money_micro(s: &str) -> (r: i128)
    ensures
        r as int == money_micro_of(s@),
        -(u64::MAX as int) <= r as int <= u64::MAX as int,
{
    let n = s.unicode_len();
    if n > 0 && s.get_char(0) == '-' {
        let rest = s.substring_char(1, n);
        proof {
            assert(rest@ =~= s@.skip(1));
        }
        -(parse_display_micro(rest) as i128)
    } else {
        parse_display_micro(s) as i128
    }
}

/// The canonical realized-PnL of one position, in micro-squared units:
/// cash out minus cash in, plus what the net tokens are worth at the
/// settlement-or-latest price.
pub open spec fn position_pnl_scaled(
    sell_usdc: int,
    buy_usdc: int,
    buy_amount: int,
    sell_amount: int,
    price: int,
) -> int {
    (sell_usdc - buy_usdc) * 1_000_000 + (buy_amount - sell_amount) * price
}

/// Evaluate the canonical formula on one aggregated position.
pub fn position_pnl_scaled_exec(
    sell_usdc: i128,
    buy_usdc: i128,
    buy_amount: i128,
    sell_amount: i128,
    price: i128,
) -> (r: i128)
    requires
        -(u64::MAX as i128) <= sell_usdc <= u64::MAX as i128,
        -(u64::MAX as i128) <= buy_usdc <= u64::MAX as i128,
        -(u64::MAX as i128) <= buy_amount <= u64::MAX as i128,
        -(u64::MAX as i128) <= sell_amount <= u64::MAX as i128,
        -100_000_000 <= price <= 100_000_000,
    ensures
        r as int == position_pnl_scaled(
            sell_usdc as int,
            buy_usdc as int,
            buy_amount as int,
            sell_amount as int,
            price as int,
        ),
{
    proof {
        let d = sell_usdc as int - buy_usdc as int;
        let t = buy_amount as int - sell_amount as int;
        assert(-2 * (u64::MAX as int) * 1_000_000 <= d * 1_000_000 <= 2 * (u64::MAX as int)
            * 1_000_000) by (nonlinear_arith)
            requires
                -2 * (u64::MAX as int) <= d <= 2 * (u64::MAX as int),
        ;
        assert(-2 * (u64::MAX as int) * 100_000_000 <= t * (price as int) <= 2 * (u64::MAX as int)
            * 100_000_000) by (nonlinear_arith)
            requires
                -2 * (u64::MAX as int) <= t <= 2 * (u64::MAX as int),
                -100_000_000 <= price as int <= 100_000_000,
        ;
    }
    (sell_usdc - buy_usdc) * 1_000_000 + (buy_amount - sell_amount) * price
}

/// One raw trade, reduced to what PnL needs. Used in specifications only.
pub struct TradeFlow {
    pub asset: Seq<char>,
    pub side: Side,
    pub amount: int,
    pub usdc: int,
}

pub open spec fn trade_tokens(t: TradeFlow) -> int {
    if t.side is Buy {
        t.amount
    } else {
        -t.amount
    }
}

pub open spec fn trade_cash(t: TradeFlow) -> int {
    if t.side is Sell {
        t.usdc
    } else {
        -t.usdc
    }
}

/// PnL of a raw trade stream: every trade's cash flow, plus every trade's
/// tokens at its asset's price.
pub open spec fn pnl_trades(ts: Seq<TradeFlow>, price: spec_fn(Seq<char>) -> int) -> int
    decreases ts.len(),
{
    if ts.len() == 0 {
        0
    } else {
        pnl_trades(ts.drop_last(), price) + trade_cash(ts.last()) * 1_000_000 + trade_tokens(
            ts.last(),
        ) * price(ts.last().asset)
    }
}

/// Net tokens a trade stream leaves in one asset.
pub open spec fn net_tokens(ts: Seq<TradeFlow>, asset: Seq<char>) -> int
    decreases ts.len(),
{
    if ts.len() == 0 {
        0
    } else {
        net_tokens(ts.drop_last(), asset) + if ts.last().asset == asset {
            trade_tokens(ts.last())
        } else {
            0
        }
    }
}

/// Net cash a trade stream moves in one asset.
pub open spec fn cash_flow(ts: Seq<TradeFlow>, asset: Seq<char>) -> int
    decreases ts.len(),
{
    if ts.len() == 0 {
        0
    } else {
        cash_flow(ts.drop_last(), asset) + if ts.last().asset == asset {
            trade_cash(ts.last())
        } else {
            0
        }
    }
}

/// The distinct assets of a trade stream, one entry each.
pub open spec fn assets_of(ts: Seq<TradeFlow>) -> Seq<Seq<char>>
    decreases ts.len(),
{
    if ts.len() == 0 {
        Seq::empty()
    } else {
        let rest = assets_of(ts.drop_last());
        if rest.contains(ts.last().asset) {
            rest
        } else {
            rest.push(ts.last().asset)
        }
    }
}

/// PnL of the aggregated position view: the canonical formula per asset,
/// summed over a list of assets.
pub open spec fn pnl_positions(
    ts: Seq<TradeFlow>,
    assets: Seq<Seq<char>>,
    price: spec_fn(Seq<char>) -> int,
) -> int
    decreases assets.len(),
{
    if assets.len() == 0 {
        0
    } else {
        pnl_positions(ts, assets.drop_last(), price) + cash_flow(ts, assets.last()) * 1_000_000
            + net_tokens(ts, assets.last()) * price(assets.last())
    }
}

/// An asset is listed exactly when some trade touches it.
proof fn lemma_assets_of_contains(ts: Seq<TradeFlow>, a: Seq<char>)
    ensures
        assets_of(ts).contains(a) <==> exists|i: int| 0 <= i < ts.len() && ts[i].asset == a,
    decreases ts.len(),
{
    if ts.len() > 0 {
        let dl = ts.drop_last();
        let rest = assets_of(dl);
        lemma_assets_of_contains(dl, a);
        // Forward: listed implies touched.
        if assets_of(ts).contains(a) {
            if rest.contains(a) {
                let i = choose|i: int| 0 <= i < dl.len() && dl[i].asset == a;
                assert(ts[i].asset == a);
            } else {
                assert(assets_of(ts) == rest.push(ts.last().asset));
                let k = choose|k: int| 0 <= k < assets_of(ts).len() && assets_of(ts)[k] == a;
                if k < rest.len() {
                    assert(rest[k] == a);
                    assert(rest.contains(a));
                    assert(false);
                } else {
                    assert(ts[ts.len() - 1].asset == a);
                }
            }
        }
        // Backward: touched implies listed.
        if exists|i: int| 0 <= i < ts.len() && ts[i].asset == a {
            let i = choose|i: int| 0 <= i < ts.len() && ts[i].asset == a;
            if i < ts.len() - 1 {
                assert(dl[i].asset == a);
                assert(rest.contains(a));
                if !rest.contains(ts.last().asset) {
                    assert(assets_of(ts) == rest.push(ts.last().asset));
                    let k = choose|k: int| 0 <= k < rest.len() && rest[k] == a;
                    assert(assets_of(ts)[k] == a);
                }
                assert(assets_of(ts).contains(a));
            } else {
                assert(ts.last().asset == a);
                if rest.contains(a) {
                    let k = choose|k: int| 0 <= k < rest.len() && rest[k] == a;
                    assert(assets_of(ts) == rest);
                    assert(assets_of(ts).contains(a));
                } else {
                    assert(assets_of(ts) == rest.push(a));
                    assert(assets_of(ts)[assets_of(ts).len() - 1] == a);
                    assert(assets_of(ts).contains(a));
                }
            }
        }
    }
}

/// An asset outside a stream has no position in it.
proof fn lemma_untouched_asset(ts: Seq<TradeFlow>, a: Seq<char>)
    requires
        forall|i: int| 0 <= i < ts.len() ==> ts[i].asset != a,
    ensures
        net_tokens(ts, a) == 0,
        cash_flow(ts, a) == 0,
    decreases ts.len(),
{
    if ts.len() > 0 {
        assert(forall|i: int| 0 <= i < ts.len() - 1 ==> ts.drop_last()[i].asset != a);
        lemma_untouched_asset(ts.drop_last(), a);
        assert(ts[ts.len() - 1].asset != a);
    }
}

/// Dropping the last trade changes only its own asset's position sums.
proof fn lemma_position_sums_drop(ts: Seq<TradeFlow>, a: Seq<char>)
    requires
        ts.len() > 0,
    ensures
        ts.last().asset != a ==> net_tokens(ts, a) == net_tokens(ts.drop_last(), a) && cash_flow(
            ts,
            a,
        ) == cash_flow(ts.drop_last(), a),
        ts.last().asset == a ==> net_tokens(ts, a) == net_tokens(ts.drop_last(), a) + trade_tokens(
            ts.last(),
        ) && cash_flow(ts, a) == cash_flow(ts.drop_last(), a) + trade_cash(ts.last()),
{
}

/// Summing the per-asset formula over a list of assets that the last trade's
/// asset is not in gives the same total for the stream with and without the
/// last trade.
proof fn lemma_pnl_positions_drop(
    ts: Seq<TradeFlow>,
    assets: Seq<Seq<char>>,
    price: spec_fn(Seq<char>) -> int,
)
    requires
        ts.len() > 0,
        !assets.contains(ts.last().asset),
    ensures
        pnl_positions(ts, assets, price) == pnl_positions(ts.drop_last(), assets, price),
    decreases assets.len(),
{
    if assets.len() > 0 {
        assert(forall|k: int| 0 <= k < assets.len() - 1 ==> assets.drop_last()[k] == assets[k]);
        assert(!assets.drop_last().contains(ts.last().asset)) by {
            if assets.drop_last().contains(ts.last().asset) {
                let k = choose|k: int|
                    0 <= k < assets.drop_last().len() && assets.drop_last()[k] == ts.last().asset;
                assert(assets[k] == ts.last().asset);
            }
        }
        lemma_pnl_positions_drop(ts, assets.drop_last(), price);
        assert(assets.last() != ts.last().asset) by {
            assert(assets[assets.len() - 1] == assets.last());
        }
        lemma_position_sums_drop(ts, assets.last());
    }
}

/// As above, but with the last trade's asset in the list exactly once: the
/// totals differ by that trade's own contribution.
proof fn lemma_pnl_positions_drop_in(
    ts: Seq<TradeFlow>,
    assets: Seq<Seq<char>>,
    price: spec_fn(Seq<char>) -> int,
)
    requires
        ts.len() > 0,
        assets.contains(ts.last().asset),
        forall|x: int, y: int| 0 <= x < y < assets.len() ==> assets[x] != assets[y],
    ensures
        pnl_positions(ts, assets, price) == pnl_positions(ts.drop_last(), assets, price)
            + trade_cash(ts.last()) * 1_000_000 + trade_tokens(ts.last()) * price(
            ts.last().asset,
        ),
    decreases assets.len(),
{
    let a0 = ts.last().asset;
    if assets.len() > 0 {
        assert(forall|k: int| 0 <= k < assets.len() - 1 ==> assets.drop_last()[k] == assets[k]);
        if assets.last() == a0 {
            assert(!assets.drop_last().contains(a0)) by {
                if assets.drop_last().contains(a0) {
                    let k = choose|k: int|
                        0 <= k < assets.drop_last().len() && assets.drop_last()[k] == a0;
                    assert(assets[k] == assets[assets.len() - 1]);
                }
            }
            lemma_pnl_positions_drop(ts, assets.drop_last(), price);
            lemma_position_sums_drop(ts, a0);
            assert((cash_flow(ts.drop_last(), a0) + trade_cash(ts.last())) * 1_000_000 ==
                cash_flow(ts.drop_last(), a0) * 1_000_000 + trade_cash(ts.last()) * 1_000_000)
                by (nonlinear_arith);
            assert((net_tokens(ts.drop_last(), a0) + trade_tokens(ts.last())) * price(a0) ==
                net_tokens(ts.drop_last(), a0) * price(a0) + trade_tokens(ts.last()) * price(a0))
                by (nonlinear_arith);
        } else {
            assert(assets.drop_last().contains(a0)) by {
                let k = choose|k: int| 0 <= k < assets.len() && assets[k] == a0;
                assert(k < assets.len() - 1);
                assert(assets.drop_last()[k] == a0);
            }
            lemma_pnl_positions_drop_in(ts, assets.drop_last(), price);
            lemma_position_sums_drop(ts, assets.last());
        }
    }
}

/// The distinct-asset list never repeats an asset.
proof fn lemma_assets_of_unique(ts: Seq<TradeFlow>)
    ensures
        forall|x: int, y: int|
            0 <= x < y < assets_of(ts).len() ==> assets_of(ts)[x] != assets_of(ts)[y],
    decreases ts.len(),
{
    if ts.len() > 0 {
        lemma_assets_of_unique(ts.drop_last());
        let rest = assets_of(ts.drop_last());
        if !rest.contains(ts.last().asset) {
            assert forall|x: int, y: int|
                0 <= x < y < assets_of(ts).len() implies assets_of(ts)[x] != assets_of(
                ts,
            )[y] by {
                if y < rest.len() {
                } else {
                    assert(assets_of(ts)[y] == ts.last().asset);
                    assert(assets_of(ts)[x] == rest[x]);
                    assert(rest.contains(rest[x]));
                }
            }
        }
    }
}

/// PnL view agreement: the canonical formula summed over the aggregated
/// per-asset positions equals the same formula applied trade by trade to the
/// raw stream, at any per-asset price assignment — exactly, with no
/// tolerance, because every view uses the same exact arithmetic.
pub proof fn lemma_pnl_views_agree(ts: Seq<TradeFlow>, price: spec_fn(Seq<char>) -> int)
    ensures
        pnl_trades(ts, price) == pnl_positions(ts, assets_of(ts), price),
    decreases ts.len(),
{
    if ts.len() > 0 {
        let dl = ts.drop_last();
        let a0 = ts.last().asset;
        lemma_pnl_views_agree(dl, price);
        lemma_assets_of_unique(ts);
        lemma_assets_of_contains(ts, a0);
        if assets_of(dl).contains(a0) {
            assert(assets_of(ts) == assets_of(dl));
            lemma_pnl_positions_drop_in(ts, assets_of(ts), price);
            assert(pnl_positions(ts.drop_last(), assets_of(dl), price) == pnl_positions(
                dl,
                assets_of(dl),
                price,
            ));
        } else {
            assert(assets_of(ts) == assets_of(dl).push(a0));
            // The new asset's own position is exactly the last trade.
            assert(pnl_positions(ts, assets_of(ts), price) == pnl_positions(
                ts,
                assets_of(dl),
                price,
            ) + cash_flow(ts, a0) * 1_000_000 + net_tokens(ts, a0) * price(a0)) by {
                assert(assets_of(ts).drop_last() =~= assets_of(dl));
                assert(assets_of(ts).last() == a0);
            }
            lemma_pnl_positions_drop(ts, assets_of(dl), price);
            lemma_assets_of_contains(dl, a0);
            assert(forall|i: int| 0 <= i < dl.len() ==> dl[i].asset != a0);
            lemma_untouched_asset(dl, a0);
            lemma_position_sums_drop(ts, a0);
        }
    }
}

/// Half a cent, in micro-USDC: the settlement band around zero and one.
pub const SETTLE_BAND_MICRO: u64 = 5_000;

/// A position counts as settled when the chain resolved it, the catalog
/// marked its market inactive, its price sits within half a cent of zero or
/// one (an unreadable price pins nothing), or the trader has fully exited.
pub open spec fn position_settled(
    on_chain_resolved: bool,
    api_active: Option<bool>,
    price_readable: bool,
    price_micro: int,
    fully_exited: bool,
) -> bool {
    ||| on_chain_resolved
    ||| api_active == Some(false)
    ||| (price_readable && (price_micro < 5_000 || price_micro > 995_000))
    ||| fully_exited
}

/// Classify one position as settled (closed) or open. A positive net token
/// balance still classifies as closed once any settlement signal holds.
pub fn classify_position(
    on_chain_resolved: bool,
    api_active: Option<bool>,
    latest_price: &str,
    side_summary: &str,
) -> (r: bool)
    ensures
        r == position_settled(
            on_chain_resolved,
            api_active,
            money_readable(latest_price@),
            money_micro_of(latest_price@),
            side_summary@ == "closed"@,
        ),
{
    let exited = crate::text::str_eq(side_summary, "closed");
    let pinned = match parse_money_checked(latest_price) {
        Some(price) => price < 5_000 || price > 995_000,
        None => false,
    };
    on_chain_resolved || (match api_active {
        Some(a) => !a,
        None => false,
    }) || pinned || exited
}

} // verus!
