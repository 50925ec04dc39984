//! Mark-to-market portfolio state: the per-asset `(tokens, cash, price)`
//! fold behind the PnL chart, and the capital-constrained replay behind the
//! backtest.

use vstd::prelude::*;

use crate::assoc::{key_index, AssocMap};

verus! {

/// Per-asset running state: net tokens and cash flow in micro units, last
/// seen price in micro-USDC.
pub struct AssetState {
    pub tokens: i128,
    pub cash: i128,
    pub price: i128,
}

/// Bound on any single per-asset balance the folds accumulate; enough for
/// sixty-five thousand maximal rows per asset, far inside `i128`.
pub const STATE_BOUND: i128 = 0x1_0000_0000_0000_0000_0000;

/// Bound on a stored price: one hundred USDC per token, far beyond any
/// prediction-market price.
pub const PRICE_BOUND: i128 = 100_000_000;

/// Bound on one asset's mark contribution.
pub const TERM_BOUND: i128 = 200_000_000_000_000_000_000_000_000_000_000;

/// Most assets one portfolio state may track.
pub const STATE_LEN_CAP: usize = 100_000;

pub open spec fn asset_state_wf(s: AssetState) -> bool {
    &&& -STATE_BOUND <= s.tokens <= STATE_BOUND
    &&& -STATE_BOUND <= s.cash <= STATE_BOUND
    &&& -PRICE_BOUND <= s.price <= PRICE_BOUND
}

pub open spec fn state_wf(m: AssocMap<AssetState>) -> bool {
    &&& m.wf()
    &&& forall|j: int| 0 <= j < m.svals().len() ==> asset_state_wf(#[trigger] m.svals()[j])
    &&& m.svals().len() <= STATE_LEN_CAP
}

/// Saturating add, pinned to the state bound.
pub open spec fn sat_add(a: int, b: int) -> int {
    if a + b > STATE_BOUND {
        STATE_BOUND as int
    } else if a + b < -STATE_BOUND {
        -STATE_BOUND
    } else {
        a + b
    }
}

fn sat_add_i128(a: i128, b: i128) -> (r: i128)
    requires
        -STATE_BOUND <= a <= STATE_BOUND,
        -(u64::MAX as i128) <= b <= u64::MAX as i128,
    ensures
        r as int == sat_add(a as int, b as int),
        -STATE_BOUND <= r <= STATE_BOUND,
{
    let s = a + b;
    if s > STATE_BOUND {
        STATE_BOUND
    } else if s < -STATE_BOUND {
        -STATE_BOUND
    } else {
        s
    }
}

/// Clamp a price into the price bound.
pub open spec fn clamp_price(p: int) -> int {
    if p > PRICE_BOUND {
        PRICE_BOUND as int
    } else if p < -PRICE_BOUND {
        -PRICE_BOUND
    } else {
        p
    }
}

/// Apply one bucket row's deltas to its asset's state: tokens and cash move
/// by the deltas (saturating at the bound), the price is replaced.
pub fn apply_delta(state: &mut AssocMap<AssetState>, asset: &String, dt: i128, dc: i128, price: i128)
    requires
        state_wf(*old(state)),
        -(u64::MAX as i128) <= dt <= u64::MAX as i128,
        -(u64::MAX as i128) <= dc <= u64::MAX as i128,
        old(state).spec_len() < STATE_LEN_CAP,
    ensures
        state_wf(*final(state)),
        ({
            let i = key_index(old(state).skeys(), asset@);
            if i >= 0 {
                let o = old(state).svals()[i];
                &&& final(state).skeys() == old(state).skeys()
                &&& final(state).svals() == old(state).svals().update(
                    i,
                    AssetState {
                        tokens: (sat_add(o.tokens as int, dt as int)) as i128,
                        cash: (sat_add(o.cash as int, dc as int)) as i128,
                        price: (clamp_price(price as int)) as i128,
                    },
                )
            } else {
                &&& final(state).skeys() == old(state).skeys().push(asset@)
                &&& final(state).svals() == old(state).svals().push(
                    AssetState {
                        tokens: (sat_add(0, dt as int)) as i128,
                        cash: (sat_add(0, dc as int)) as i128,
                        price: (clamp_price(price as int)) as i128,
                    },
                )
            }
        }),
{
    let p = if price > PRICE_BOUND {
        PRICE_BOUND
    } else if price < -PRICE_BOUND {
        -PRICE_BOUND
    } else {
        price
    };
    match state.index_of(asset.as_str()) {
        Some(i) => {
            let o = state.val_at(i);
            let next = AssetState {
                tokens: sat_add_i128(o.tokens, dt),
                cash: sat_add_i128(o.cash, dc),
                price: p,
            };
            state.set_val_at(i, next);
        },
        None => {
            let next = AssetState { tokens: sat_add_i128(0, dt), cash: sat_add_i128(0, dc), price: p };
            state.insert(asset.clone(), next);
        },
    }
}

/// The mark of a state prefix: cash plus tokens at the per-asset price, in
/// micro-squared units.
pub open spec fn mark_upto(
    keys: Seq<Seq<char>>,
    vals: Seq<AssetState>,
    resolved: AssocMap<i64>,
    use_resolved: bool,
    i: int,
) -> int
    decreases i,
{
    if i <= 0 || i > vals.len() {
        0
    } else {
        let v = vals[i - 1];
        let p: int = if use_resolved && i - 1 < keys.len() && resolved.spec_contains(
            keys[i - 1],
        ) {
            resolved.spec_get(keys[i - 1]) as int
        } else {
            v.price as int
        };
        mark_upto(keys, vals, resolved, use_resolved, i - 1) + v.cash * 1_000_000 + v.tokens * p
    }
}

/// Mark the whole portfolio to market: every asset's cash plus its tokens at
/// its price — the resolved settlement price where one exists and the overlay
/// is on, else the last seen price.
pub fn portfolio_mark(
    state: &AssocMap<AssetState>,
    resolved: &AssocMap<i64>,
    use_resolved: bool,
) -> (r: i128)
    requires
        state_wf(*state),
        resolved.wf(),
        forall|j: int|
            0 <= j < resolved.svals().len() ==> 0 <= #[trigger] resolved.svals()[j]
                <= 100_000_000,
    ensures
        r as int == mark_upto(
            state.skeys(),
            state.svals(),
            *resolved,
            use_resolved,
            state.svals().len() as int,
        ),
{
    let n = state.len();
    let mut acc: i128 = 0;
    let mut i: usize = 0;
    while i < n
        invariant
            state_wf(*state),
            resolved.wf(),
            forall|j: int|
                0 <= j < resolved.svals().len() ==> 0 <= #[trigger] resolved.svals()[j]
                    <= 100_000_000,
            n == state.spec_len(),
            i <= n,
            acc as int == mark_upto(state.skeys(), state.svals(), *resolved, use_resolved, i as int),
            -(i as int) * (TERM_BOUND as int) <= acc as int <= (i as int) * (TERM_BOUND as int),
        decreases n - i,
    {
        let v = state.val_at(i);
        let p: i128 = if use_resolved {
            match resolved.get(state.key_at(i).as_str()) {
                Some(rp) => {
                    proof {
                        let k = state.skeys()[i as int];
                        crate::assoc::lemma_key_index_found(resolved.skeys(), k, 0);
                    }
                    *rp as i128
                },
                None => v.price,
            }
        } else {
            v.price
        };
        proof {
            assert(-PRICE_BOUND <= p as int <= PRICE_BOUND);
            assert(-(STATE_BOUND as int) * 1_000_000 <= (v.cash as int) * 1_000_000 <= (
            STATE_BOUND as int) * 1_000_000) by (nonlinear_arith)
                requires
                    -STATE_BOUND <= v.cash <= STATE_BOUND,
            ;
            assert(-(STATE_BOUND as int) * (PRICE_BOUND as int) <= (v.tokens as int) * (p as int)
                <= (STATE_BOUND as int) * (PRICE_BOUND as int)) by (nonlinear_arith)
                requires
                    -STATE_BOUND <= v.tokens <= STATE_BOUND,
                    -PRICE_BOUND <= p as int <= PRICE_BOUND,
            ;
            assert((i as int) * (TERM_BOUND as int) + (TERM_BOUND as int) == ((i + 1) as int) * (
            TERM_BOUND as int)) by (nonlinear_arith);
            assert(((i + 1) as int) * (TERM_BOUND as int) <= (STATE_LEN_CAP as int) * (
            TERM_BOUND as int)) by (nonlinear_arith)
                requires
                    i + 1 <= STATE_LEN_CAP,
            ;
            assert((i as int) * (TERM_BOUND as int) >= 0);
        }
        acc = acc + v.cash * 1_000_000 + v.tokens * p;
        i = i + 1;
    }
    acc
}

/// The capital constraint on one scaled buy: with no cash the buy is skipped
/// entirely; with too little it is clipped so the cash spent is exactly the
/// cash on hand (tokens scaled down in proportion, rounded toward zero);
/// otherwise it goes through whole. Sells always go through.
pub open spec fn clamped_deltas(cash: int, dt: int, dc: int) -> (int, int) {
    if dc < 0 && cash <= 0 {
        (0, 0)
    } else if dc < 0 && -dc > cash {
        let scaled = if dt >= 0 {
            dt * cash / (-dc)
        } else {
            -((-dt) * cash / (-dc))
        };
        (scaled, -cash)
    } else {
        (dt, dc)
    }
}

/// After the clamped deltas are applied, cash can never go below zero on a
/// buy: the clipped spend is exactly the remaining balance.
pub proof fn lemma_capital_constraint(cash: int, dt: int, dc: int)
    requires
        cash >= 0,
        dc < 0,
    ensures
        cash + clamped_deltas(cash, dt, dc).1 >= 0,
{
}

/// Apply the capital constraint to one scaled buy.
pub fn clamp_buy(cash: i128, dt: i128, dc: i128) -> (r: (i128, i128))
    requires
        -STATE_BOUND <= cash <= STATE_BOUND,
        -(u64::MAX as i128) <= dt <= u64::MAX as i128,
        -(u64::MAX as i128) <= dc <= u64::MAX as i128,
    ensures
        (r.0 as int, r.1 as int) == clamped_deltas(cash as int, dt as int, dc as int),
        -(u64::MAX as i128) <= r.0 <= u64::MAX as i128,
        -(u64::MAX as i128) <= r.1 <= u64::MAX as i128,
{
    if dc < 0 && cash <= 0 {
        (0, 0)
    } else if dc < 0 && -dc > cash {
        // In this branch 0 < cash < -dc <= u64::MAX, so all magnitudes fit.
        let cost = (-dc) as u128;
        let cash_u = cash as u128;
        let mag: u128 = if dt >= 0 {
            dt as u128
        } else {
            (-dt) as u128
        };
        proof {
            assert(mag <= u64::MAX);
            assert(cash_u < cost);
            assert((mag as nat) * (cash_u as nat) <= (u64::MAX as nat) * (u64::MAX as nat))
                by (nonlinear_arith)
                requires
                    mag as nat <= u64::MAX as nat,
                    cash_u as nat <= u64::MAX as nat,
            ;
            assert((mag as nat) * (cash_u as nat) / (cost as nat) <= mag as nat)
                by (nonlinear_arith)
                requires
                    cash_u as nat <= cost as nat,
                    cost as nat >= 1,
            ;
        }
        let q = mag * cash_u / cost;
        let scaled: i128 = if dt >= 0 {
            q as i128
        } else {
            -(q as i128)
        };
        (scaled, -cash)
    } else {
        (dt, dc)
    }
}

/// Running peak and maximum drawdown of a value curve.
pub open spec fn peak_upto(values: Seq<i128>, initial: int, i: int) -> int
    decreases i,
{
    if i <= 0 || i > values.len() {
        initial
    } else {
        let prev = peak_upto(values, initial, i - 1);
        if values[i - 1] as int > prev {
            values[i - 1] as int
        } else {
            prev
        }
    }
}

pub open spec fn max_drawdown_upto(values: Seq<i128>, initial: int, i: int) -> int
    decreases i,
{
    if i <= 0 || i > values.len() {
        0
    } else {
        let prev = max_drawdown_upto(values, initial, i - 1);
        let dd = peak_upto(values, initial, i) - values[i - 1] as int;
        if dd > prev {
            dd
        } else {
            prev
        }
    }
}

/// Maximum drawdown of a portfolio-value curve: the deepest fall from any
/// running peak, starting the peak at the initial capital.
pub fn max_drawdown(values: &Vec<i128>, initial: i128) -> (r: i128)
    requires
        forall|j: int|
            0 <= j < values@.len() ==> -STATE_BOUND <= #[trigger] values@[j] <= STATE_BOUND,
        -STATE_BOUND <= initial <= STATE_BOUND,
    ensures
        r as int == max_drawdown_upto(values@, initial as int, values@.len() as int),
{
    let n = values.len();
    let mut peak: i128 = initial;
    let mut dd: i128 = 0;
    let mut i: usize = 0;
    while i < n
        invariant
            n == values@.len(),
            i <= n,
            forall|j: int|
                0 <= j < values@.len() ==> -STATE_BOUND <= #[trigger] values@[j] <= STATE_BOUND,
            -STATE_BOUND <= initial <= STATE_BOUND,
            peak as int == peak_upto(values@, initial as int, i as int),
            dd as int == max_drawdown_upto(values@, initial as int, i as int),
            -STATE_BOUND <= peak <= STATE_BOUND,
            0 <= dd <= 2 * STATE_BOUND,
        decreases n - i,
    {
        let v = values[i];
        if v > peak {
            peak = v;
        }
        let cur = peak - v;
        if cur > dd {
            dd = cur;
        }
        i = i + 1;
    }
    dd
}

} // verus!

verus! {

/// The value of the held tokens alone, at the per-asset price with the
/// resolved overlay: the position leg of a portfolio point.
pub open spec fn tokens_value_upto(
    keys: Seq<Seq<char>>,
    vals: Seq<AssetState>,
    resolved: AssocMap<i64>,
    use_resolved: bool,
    i: int,
) -> int
    decreases i,
{
    if i <= 0 || i > vals.len() {
        0
    } else {
        let v = vals[i - 1];
        let p: int = if use_resolved && i - 1 < keys.len() && resolved.spec_contains(
            keys[i - 1],
        ) {
            resolved.spec_get(keys[i - 1]) as int
        } else {
            v.price as int
        };
        tokens_value_upto(keys, vals, resolved, use_resolved, i - 1) + v.tokens * p
    }
}

/// Mark the held tokens to market, optionally at resolved prices.
pub fn portfolio_tokens_value(
    state: &AssocMap<AssetState>,
    resolved: &AssocMap<i64>,
    use_resolved: bool,
) -> (r: i128)
    requires
        state_wf(*state),
        resolved.wf(),
        forall|j: int|
            0 <= j < resolved.svals().len() ==> 0 <= #[trigger] resolved.svals()[j]
                <= 100_000_000,
    ensures
        r as int == tokens_value_upto(
            state.skeys(),
            state.svals(),
            *resolved,
            use_resolved,
            state.svals().len() as int,
        ),
        -(STATE_LEN_CAP as int) * (TERM_BOUND as int) <= r as int <= (STATE_LEN_CAP as int) * (
        TERM_BOUND as int),
{
    let n = state.len();
    let mut acc: i128 = 0;
    let mut i: usize = 0;
    while i < n
        invariant
            state_wf(*state),
            resolved.wf(),
            forall|j: int|
                0 <= j < resolved.svals().len() ==> 0 <= #[trigger] resolved.svals()[j]
                    <= 100_000_000,
            n == state.spec_len(),
            i <= n,
            acc as int == tokens_value_upto(
                state.skeys(),
                state.svals(),
                *resolved,
                use_resolved,
                i as int,
            ),
            -(i as int) * (TERM_BOUND as int) <= acc as int <= (i as int) * (TERM_BOUND as int),
        decreases n - i,
    {
        let v = state.val_at(i);
        let p: i128 = if use_resolved {
            match resolved.get(state.key_at(i).as_str()) {
                Some(rp) => {
                    proof {
                        let k = state.skeys()[i as int];
                        crate::assoc::lemma_key_index_found(resolved.skeys(), k, 0);
                    }
                    *rp as i128
                },
                None => v.price,
            }
        } else {
            v.price
        };
        proof {
            assert(-PRICE_BOUND <= p as int <= PRICE_BOUND);
            assert(-(STATE_BOUND as int) * (PRICE_BOUND as int) <= (v.tokens as int) * (p as int)
                <= (STATE_BOUND as int) * (PRICE_BOUND as int)) by (nonlinear_arith)
                requires
                    -STATE_BOUND <= v.tokens <= STATE_BOUND,
                    -PRICE_BOUND <= p as int <= PRICE_BOUND,
            ;
            assert((i as int) * (TERM_BOUND as int) + (TERM_BOUND as int) == ((i + 1) as int) * (
            TERM_BOUND as int)) by (nonlinear_arith);
            assert(((i + 1) as int) * (TERM_BOUND as int) <= (STATE_LEN_CAP as int) * (
            TERM_BOUND as int)) by (nonlinear_arith)
                requires
                    i + 1 <= STATE_LEN_CAP,
            ;
            assert((i as int) * (TERM_BOUND as int) >= 0);
        }
        acc = acc + v.tokens * p;
        i = i + 1;
    }
    acc
}

/// The copy-scale of a trader: a micro-scaled ratio, one when the trader has
/// none recorded.
pub open spec fn scale_of(scales: AssocMap<u64>, trader: Seq<char>) -> nat {
    let key = crate::text::lower_of(trader);
    if scales.spec_contains(key) {
        scales.spec_get(key) as nat
    } else {
        1_000_000
    }
}

/// A delta scaled by a micro ratio, truncated toward zero and saturating at
/// the per-row bound.
pub open spec fn scaled_delta(v: int, scale: nat) -> int {
    let mag = (if v >= 0 {
        v
    } else {
        -v
    }) * scale / 1_000_000;
    let m: int = if mag > u64::MAX {
        u64::MAX as int
    } else {
        mag
    };
    if v >= 0 {
        m
    } else {
        -m
    }
}

/// Everything the replay carries between rows.
pub struct ReplayState {
    pub keys: Seq<Seq<char>>,
    pub vals: Seq<AssetState>,
    pub cash: int,
    pub cur: Seq<char>,
    pub points: Seq<(Seq<char>, int)>,
}

/// The point the replay emits for the bucket that just closed.
pub open spec fn replay_point_value(
    st: ReplayState,
    resolved: AssocMap<i64>,
    use_resolved: bool,
) -> int {
    st.cash * 1_000_000 + tokens_value_upto(
        st.keys,
        st.vals,
        resolved,
        use_resolved,
        st.vals.len() as int,
    )
}

/// One replayed row: emit the previous bucket's point at a date boundary,
/// scale the deltas by the trader's ratio, clamp the buy to the cash on
/// hand, and fold the result into the per-asset state and the cash balance.
pub open spec fn replay_step(
    st: ReplayState,
    row: crate::types::PnlDailyTraderRow,
    scales: AssocMap<u64>,
    resolved: AssocMap<i64>,
) -> ReplayState {
    let points = if st.cur.len() > 0 && row.date@ != st.cur {
        st.points.push((st.cur, replay_point_value(st, resolved, false)))
    } else {
        st.points
    };
    let scale = scale_of(scales, row.trader@);
    let dt = scaled_delta(crate::pnl::money_micro_of(row.net_token_delta@), scale);
    let dc = scaled_delta(crate::pnl::money_micro_of(row.cash_flow_delta@), scale);
    let price = clamp_price(crate::pnl::money_micro_of(row.last_price@));
    let clamped = clamped_deltas(st.cash, dt, dc);
    let cash = sat_add(st.cash, clamped.1);
    let i = crate::assoc::key_index(st.keys, row.asset_id@);
    if i >= 0 {
        let o = st.vals[i];
        ReplayState {
            keys: st.keys,
            vals: st.vals.update(
                i,
                AssetState {
                    tokens: (sat_add(o.tokens as int, clamped.0)) as i128,
                    cash: (sat_add(o.cash as int, clamped.1)) as i128,
                    price: price as i128,
                },
            ),
            cash,
            cur: row.date@,
            points,
        }
    } else {
        ReplayState {
            keys: st.keys.push(row.asset_id@),
            vals: st.vals.push(
                AssetState {
                    tokens: (sat_add(0, clamped.0)) as i128,
                    cash: (sat_add(0, clamped.1)) as i128,
                    price: price as i128,
                },
            ),
            cash,
            cur: row.date@,
            points,
        }
    }
}

/// The replay after the first `i` rows.
pub open spec fn replay_upto(
    rows: Seq<crate::types::PnlDailyTraderRow>,
    scales: AssocMap<u64>,
    resolved: AssocMap<i64>,
    init: ReplayState,
    i: int,
) -> ReplayState
    decreases i,
{
    if i <= 0 || i > rows.len() {
        init
    } else {
        replay_step(replay_upto(rows, scales, resolved, init, i - 1), rows[i - 1], scales, resolved)
    }
}

/// A point of the replayed portfolio curve.
pub struct ReplayPoint {
    pub date: String,
    /// The portfolio's value at the bucket boundary, in micro-squared units:
    /// cash plus tokens at the running (final point: resolved) prices.
    pub value_scaled: i128,
    /// The value less the initial capital.
    pub pnl_scaled: i128,
}

/// Replay scaled daily deltas through the portfolio under the capital
/// constraint: one point per closed date bucket, and a final point marked at
/// resolved prices where they exist. The state and the cash balance end
/// exactly at the replay fold's result, and a buy never takes the cash
/// balance below zero.
#[verifier::rlimit(100)]
#[verifier::spinoff_prover]
pub fn replay_rows(
    rows: &Vec<crate::types::PnlDailyTraderRow>,
    state: &mut AssocMap<AssetState>,
    cash0: i128,
    scales: &AssocMap<u64>,
    resolved: &AssocMap<i64>,
    initial_capital: i128,
) -> (points: Vec<ReplayPoint>)
    requires
        state_wf(*old(state)),
        scales.wf(),
        resolved.wf(),
        forall|j: int|
            0 <= j < resolved.svals().len() ==> 0 <= #[trigger] resolved.svals()[j]
                <= 100_000_000,
        forall|j: int| 0 <= j < scales.svals().len() ==> #[trigger] scales.svals()[j] > 0,
        -STATE_BOUND <= cash0 <= STATE_BOUND,
        0 <= initial_capital <= STATE_BOUND,
        old(state).spec_len() + rows@.len() <= STATE_LEN_CAP,
    ensures
        ({
            let init = ReplayState {
                keys: old(state).skeys(),
                vals: old(state).svals(),
                cash: cash0 as int,
                cur: Seq::empty(),
                points: Seq::empty(),
            };
            let fin = replay_upto(rows@, *scales, *resolved, init, rows@.len() as int);
            &&& final(state).skeys() == fin.keys
            &&& final(state).svals() == fin.vals
            &&& state_wf(*final(state))
            &&& points@.len() == fin.points.len() + (if fin.cur.len() > 0 {
                1int
            } else {
                0int
            })
            &&& (forall|x: int|
                0 <= x < fin.points.len() ==> (#[trigger] points@[x]).date@ == fin.points[x].0
                    && points@[x].value_scaled as int == fin.points[x].1)
            &&& (fin.cur.len() > 0 ==> points@.last().date@ == fin.cur
                && points@.last().value_scaled as int == fin.cash * 1_000_000 + tokens_value_upto(
                fin.keys,
                fin.vals,
                *resolved,
                true,
                fin.vals.len() as int,
            ))
            &&& (forall|x: int|
                0 <= x < points@.len() ==> (#[trigger] points@[x]).pnl_scaled as int == points@[
                    x
                ].value_scaled - initial_capital * 1_000_000)
        }),
{
    let ghost init = ReplayState {
        keys: old(state).skeys(),
        vals: old(state).svals(),
        cash: cash0 as int,
        cur: Seq::empty(),
        points: Seq::empty(),
    };
    let mut cash = cash0;
    let mut cur: String = String::new();
    let mut out: Vec<ReplayPoint> = Vec::new();
    let n = rows.len();
    let mut i: usize = 0;
    while i < n
        invariant
            n == rows@.len(),
            i <= n,
            scales.wf(),
            resolved.wf(),
            forall|j: int|
                0 <= j < resolved.svals().len() ==> 0 <= #[trigger] resolved.svals()[j]
                    <= 100_000_000,
            forall|j: int| 0 <= j < scales.svals().len() ==> #[trigger] scales.svals()[j] > 0,
            0 <= initial_capital <= STATE_BOUND,
            state_wf(*state),
            ({
                let st = replay_upto(rows@, *scales, *resolved, init, i as int);
                &&& state.skeys() == st.keys
                &&& state.svals() == st.vals
                &&& cash as int == st.cash
                &&& cur@ == st.cur
                &&& out@.len() == st.points.len()
                &&& (forall|x: int|
                    0 <= x < st.points.len() ==> (#[trigger] out@[x]).date@ == st.points[x].0
                        && out@[x].value_scaled as int == st.points[x].1)
                &&& (forall|x: int|
                    0 <= x < out@.len() ==> (#[trigger] out@[x]).pnl_scaled as int == out@[
                        x
                    ].value_scaled - initial_capital * 1_000_000)
            }),
            -STATE_BOUND <= cash <= STATE_BOUND,
            state.spec_len() <= old(state).spec_len() + i,
            old(state).spec_len() + rows@.len() <= STATE_LEN_CAP,
        decreases n - i,
    {
        let row = &rows[i];
        let ghost st = replay_upto(rows@, *scales, *resolved, init, i as int);
        proof {
            assert(replay_upto(rows@, *scales, *resolved, init, i + 1) == replay_step(
                st,
                rows@[i as int],
                *scales,
                *resolved,
            ));
        }
        // Close the previous bucket when the date moves.
        if cur.as_str().unicode_len() > 0 && !crate::text::str_eq(
            row.date.as_str(),
            cur.as_str(),
        ) {
            let pv = portfolio_tokens_value(state, resolved, false);
            proof {
                assert(-(STATE_BOUND as int) * 1_000_000 <= (cash as int) * 1_000_000 <= (
                STATE_BOUND as int) * 1_000_000) by (nonlinear_arith)
                    requires
                        -STATE_BOUND <= cash <= STATE_BOUND,
                ;
                assert(-(STATE_BOUND as int) * 1_000_000 <= (initial_capital as int) * 1_000_000
                    <= (STATE_BOUND as int) * 1_000_000) by (nonlinear_arith)
                    requires
                        -STATE_BOUND <= initial_capital <= STATE_BOUND,
                ;
            }
            let value = cash * 1_000_000 + pv;
            out.push(
                ReplayPoint {
                    date: cur.clone(),
                    value_scaled: value,
                    pnl_scaled: value - initial_capital * 1_000_000,
                },
            );
        }
        // Scale, clamp, fold.
        let lowered = crate::text::to_lower(row.trader.as_str());
        let scale: u64 = match scales.get(lowered.as_str()) {
            Some(sc) => {
                proof {
                    crate::assoc::lemma_key_index_found(
                        scales.skeys(),
                        crate::text::lower_of(row.trader@),
                        0,
                    );
                }
                *sc
            },
            None => 1_000_000,
        };
        let dt = apply_scale(crate::pnl::parse_money_micro(row.net_token_delta.as_str()), scale);
        let dc = apply_scale(crate::pnl::parse_money_micro(row.cash_flow_delta.as_str()), scale);
        let price = crate::pnl::parse_money_micro(row.last_price.as_str());
        let (cdt, cdc) = clamp_buy(cash, dt, dc);
        cash = sat_add_pub(cash, cdc);
        apply_delta(state, &row.asset_id, cdt, cdc, price);
        cur = row_date(row);
        proof {
            let st2 = replay_step(st, rows@[i as int], *scales, *resolved);
            assert(state.skeys() == st2.keys);
            assert(state.svals() == st2.vals);
            assert(cash as int == st2.cash);
            assert(cur@ == st2.cur);
        }
        i = i + 1;
    }
    // The final point marks settled positions at their resolved prices.
    let ghost fin = replay_upto(rows@, *scales, *resolved, init, rows@.len() as int);
    if cur.as_str().unicode_len() > 0 {
        let pv = portfolio_tokens_value(state, resolved, true);
        proof {
            assert(-(STATE_BOUND as int) * 1_000_000 <= (cash as int) * 1_000_000 <= (
            STATE_BOUND as int) * 1_000_000) by (nonlinear_arith)
                requires
                    -STATE_BOUND <= cash <= STATE_BOUND,
            ;
            assert(-(STATE_BOUND as int) * 1_000_000 <= (initial_capital as int) * 1_000_000 <= (
            STATE_BOUND as int) * 1_000_000) by (nonlinear_arith)
                requires
                    -STATE_BOUND <= initial_capital <= STATE_BOUND,
            ;
        }
        let value = cash * 1_000_000 + pv;
        out.push(
            ReplayPoint {
                date: cur,
                value_scaled: value,
                pnl_scaled: value - initial_capital * 1_000_000,
            },
        );
    }
    out
}

/// Scale a micro delta by a micro ratio, truncating toward zero.
fn apply_scale(v: i128, scale: u64) -> (r: i128)
    requires
        -(u64::MAX as i128) <= v <= u64::MAX as i128,
    ensures
        r as int == scaled_delta(v as int, scale as nat),
        -(u64::MAX as i128) <= r <= u64::MAX as i128,
{
    let mag: u128 = if v >= 0 {
        v as u128
    } else {
        (-v) as u128
    };
    proof {
        assert((mag as nat) * (scale as nat) <= (u64::MAX as nat) * (u64::MAX as nat))
            by (nonlinear_arith)
            requires
                mag as nat <= u64::MAX as nat,
                scale as nat <= u64::MAX as nat,
        ;
        assert((mag as nat) * (scale as nat) / 1_000_000 <= (mag as nat) * (scale as nat));
    }
    let q = mag * (scale as u128) / 1_000_000;
    let m: u128 = if q > u64::MAX as u128 {
        u64::MAX as u128
    } else {
        q
    };
    if v >= 0 {
        m as i128
    } else {
        -(m as i128)
    }
}

fn sat_add_pub(a: i128, b: i128) -> (r: i128)
    requires
        -STATE_BOUND <= a <= STATE_BOUND,
        -(u64::MAX as i128) <= b <= u64::MAX as i128,
    ensures
        r as int == sat_add(a as int, b as int),
        -STATE_BOUND <= r <= STATE_BOUND,
{
    let s = a + b;
    if s > STATE_BOUND {
        STATE_BOUND
    } else if s < -STATE_BOUND {
        -STATE_BOUND
    } else {
        s
    }
}

fn row_date(r: &crate::types::PnlDailyTraderRow) -> (s: String)
    ensures
        s@ == r.date@,
{
    r.date.clone()
}

} // verus!

verus! {

/// The chart replay's carried state.
pub struct ChartState {
    pub keys: Seq<Seq<char>>,
    pub vals: Seq<AssetState>,
    pub cur: Seq<char>,
    pub points: Seq<(Seq<char>, int)>,
}

/// One chart row: emit the closed bucket's mark at a date boundary, then
/// fold the row's deltas into its asset's state.
pub open spec fn chart_step(
    st: ChartState,
    row: crate::types::PnlDailyRow,
    resolved: AssocMap<i64>,
) -> ChartState {
    let points = if st.cur.len() > 0 && row.date@ != st.cur {
        st.points.push(
            (st.cur, mark_upto(st.keys, st.vals, resolved, false, st.vals.len() as int)),
        )
    } else {
        st.points
    };
    let dt = crate::pnl::money_micro_of(row.net_token_delta@);
    let dc = crate::pnl::money_micro_of(row.cash_flow_delta@);
    let price = clamp_price(crate::pnl::money_micro_of(row.last_price@));
    let i = crate::assoc::key_index(st.keys, row.asset_id@);
    if i >= 0 {
        let o = st.vals[i];
        ChartState {
            keys: st.keys,
            vals: st.vals.update(
                i,
                AssetState {
                    tokens: (sat_add(o.tokens as int, dt)) as i128,
                    cash: (sat_add(o.cash as int, dc)) as i128,
                    price: price as i128,
                },
            ),
            cur: row.date@,
            points,
        }
    } else {
        ChartState {
            keys: st.keys.push(row.asset_id@),
            vals: st.vals.push(
                AssetState {
                    tokens: (sat_add(0, dt)) as i128,
                    cash: (sat_add(0, dc)) as i128,
                    price: price as i128,
                },
            ),
            cur: row.date@,
            points,
        }
    }
}

/// The chart replay after the first `i` rows.
pub open spec fn chart_upto(
    rows: Seq<crate::types::PnlDailyRow>,
    resolved: AssocMap<i64>,
    init: ChartState,
    i: int,
) -> ChartState
    decreases i,
{
    if i <= 0 || i > rows.len() {
        init
    } else {
        chart_step(chart_upto(rows, resolved, init, i - 1), rows[i - 1], resolved)
    }
}

/// A PnL-chart point: the bucket date and the mark of the running state, in
/// micro-squared units.
pub struct ChartPoint {
    pub date: String,
    pub pnl_scaled: i128,
}

/// Fold bucketed trade summaries into one PnL point per closed bucket —
/// every asset's cash flow plus its net tokens at the running price — with a
/// final point marked at resolved prices where they exist.
#[verifier::rlimit(100)]
#[verifier::spinoff_prover]
pub fn compute_pnl_points(
    rows: &Vec<crate::types::PnlDailyRow>,
    state: &mut AssocMap<AssetState>,
    resolved: &AssocMap<i64>,
) -> (points: Vec<ChartPoint>)
    requires
        state_wf(*old(state)),
        resolved.wf(),
        forall|j: int|
            0 <= j < resolved.svals().len() ==> 0 <= #[trigger] resolved.svals()[j]
                <= 100_000_000,
        old(state).spec_len() + rows@.len() <= STATE_LEN_CAP,
    ensures
        ({
            let init = ChartState {
                keys: old(state).skeys(),
                vals: old(state).svals(),
                cur: Seq::empty(),
                points: Seq::empty(),
            };
            let fin = chart_upto(rows@, *resolved, init, rows@.len() as int);
            &&& final(state).skeys() == fin.keys
            &&& final(state).svals() == fin.vals
            &&& state_wf(*final(state))
            &&& points@.len() == fin.points.len() + (if fin.cur.len() > 0 {
                1int
            } else {
                0int
            })
            &&& (forall|x: int|
                0 <= x < fin.points.len() ==> (#[trigger] points@[x]).date@ == fin.points[x].0
                    && points@[x].pnl_scaled as int == fin.points[x].1)
            &&& (fin.cur.len() > 0 ==> points@.last().date@ == fin.cur
                && points@.last().pnl_scaled as int == mark_upto(
                fin.keys,
                fin.vals,
                *resolved,
                true,
                fin.vals.len() as int,
            ))
        }),
{
    let ghost init = ChartState {
        keys: old(state).skeys(),
        vals: old(state).svals(),
        cur: Seq::empty(),
        points: Seq::empty(),
    };
    let mut cur: String = String::new();
    let mut out: Vec<ChartPoint> = Vec::new();
    let n = rows.len();
    let mut i: usize = 0;
    while i < n
        invariant
            n == rows@.len(),
            i <= n,
            resolved.wf(),
            forall|j: int|
                0 <= j < resolved.svals().len() ==> 0 <= #[trigger] resolved.svals()[j]
                    <= 100_000_000,
            state_wf(*state),
            ({
                let st = chart_upto(rows@, *resolved, init, i as int);
                &&& state.skeys() == st.keys
                &&& state.svals() == st.vals
                &&& cur@ == st.cur
                &&& out@.len() == st.points.len()
                &&& (forall|x: int|
                    0 <= x < st.points.len() ==> (#[trigger] out@[x]).date@ == st.points[x].0
                        && out@[x].pnl_scaled as int == st.points[x].1)
            }),
            state.spec_len() <= old(state).spec_len() + i,
            old(state).spec_len() + rows@.len() <= STATE_LEN_CAP,
        decreases n - i,
    {
        let row = &rows[i];
        let ghost st = chart_upto(rows@, *resolved, init, i as int);
        proof {
            assert(chart_upto(rows@, *resolved, init, i + 1) == chart_step(
                st,
                rows@[i as int],
                *resolved,
            ));
        }
        if cur.as_str().unicode_len() > 0 && !crate::text::str_eq(
            row.date.as_str(),
            cur.as_str(),
        ) {
            let pv = portfolio_mark(state, resolved, false);
            out.push(ChartPoint { date: cur.clone(), pnl_scaled: pv });
        }
        let dt = crate::pnl::parse_money_micro(row.net_token_delta.as_str());
        let dc = crate::pnl::parse_money_micro(row.cash_flow_delta.as_str());
        let price = crate::pnl::parse_money_micro(row.last_price.as_str());
        apply_delta(state, &row.asset_id, dt, dc, price);
        cur = chart_row_date(row);
        proof {
            let st2 = chart_step(st, rows@[i as int], *resolved);
            assert(state.skeys() == st2.keys);
            assert(state.svals() == st2.vals);
            assert(cur@ == st2.cur);
        }
        i = i + 1;
    }
    if cur.as_str().unicode_len() > 0 {
        let pv = portfolio_mark(state, resolved, true);
        out.push(ChartPoint { date: cur, pnl_scaled: pv });
    }
    out
}

fn chart_row_date(r: &crate::types::PnlDailyRow) -> (s: String)
    ensures
        s@ == r.date@,
{
    r.date.clone()
}

} // verus!
