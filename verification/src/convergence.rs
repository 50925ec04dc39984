//! Convergence detection: a per-asset sliding window of curated-trader
//! activity that raises an alert when enough distinct traders touch the same
//! asset inside the window, at most once per asset per dedup interval.

use vstd::prelude::*;

use crate::assoc::{key_index, AssocMap};
use crate::fills::LiveTrade;
use crate::money::parse_display_micro;
use crate::text::str_eq;

verus! {

/// One recorded trade inside an asset's window.
pub struct ConvEntry {
    pub trader: String,
    pub ts: u64,
    pub side: String,
    pub usdc_micro: u64,
}

/// The alert raised when curated traders converge on one asset.
pub struct ConvergenceAlert {
    pub question: String,
    pub asset_id: String,
    pub outcome: String,
    pub traders: Vec<String>,
    pub trader_count: usize,
    pub window_seconds: u64,
    pub side: String,
    /// Total micro-USDC the windowed trades moved.
    pub total_usdc_micro: u128,
}

/// An entry still inside the window at `now`.
pub open spec fn entry_fresh(e: ConvEntry, now: u64, window: u64) -> bool {
    e.ts + window > now
}

/// The entries of a window still fresh at `now`, in order.
pub open spec fn fresh_of(entries: Seq<ConvEntry>, now: u64, window: u64) -> Seq<ConvEntry>
    decreases entries.len(),
{
    if entries.len() == 0 {
        Seq::empty()
    } else if entry_fresh(entries.last(), now, window) {
        fresh_of(entries.drop_last(), now, window).push(entries.last())
    } else {
        fresh_of(entries.drop_last(), now, window)
    }
}

/// Whether entry `i` is the first by its trader.
pub open spec fn first_by_trader(entries: Seq<ConvEntry>, i: int) -> bool {
    forall|j: int| 0 <= j < i ==> entries[j].trader@ != entries[i].trader@
}

/// How many of the first `i` entries are each the first by their trader:
/// the number of distinct traders among them.
pub open spec fn distinct_traders_upto(entries: Seq<ConvEntry>, i: int) -> nat
    decreases i,
{
    if i <= 0 || i > entries.len() {
        0
    } else {
        distinct_traders_upto(entries, i - 1) + if first_by_trader(entries, i - 1) {
            1nat
        } else {
            0nat
        }
    }
}

/// The number of distinct traders in a window.
pub open spec fn distinct_traders(entries: Seq<ConvEntry>) -> nat {
    distinct_traders_upto(entries, entries.len() as int)
}

/// How many of the first `i` entries bought.
pub open spec fn buys_upto(entries: Seq<ConvEntry>, i: int) -> nat
    decreases i,
{
    if i <= 0 || i > entries.len() {
        0
    } else {
        buys_upto(entries, i - 1) + if entries[i - 1].side@ == "buy"@ {
            1nat
        } else {
            0nat
        }
    }
}

/// Total micro-USDC of the first `i` entries.
pub open spec fn total_usdc_upto(entries: Seq<ConvEntry>, i: int) -> nat
    decreases i,
{
    if i <= 0 || i > entries.len() {
        0
    } else {
        total_usdc_upto(entries, i - 1) + entries[i - 1].usdc_micro as nat
    }
}

/// Whether the dedup interval allows an alert for `asset` at `now`: it does
/// unless one was raised for that asset within the last sixty seconds.
pub open spec fn dedup_allows(last_alert: AssocMap<u64>, asset: Seq<char>, now: u64) -> bool {
    !(last_alert.spec_contains(asset) && now < last_alert.spec_get(asset) + 60)
}

/// What one recorded trade does to the window table: the trade's asset gets
/// the rolled window, every other asset keeps its entries.
pub open spec fn window_updated(
    pre: ConvergenceDetector,
    post: ConvergenceDetector,
    trade: LiveTrade,
    now: u64,
) -> bool {
    let w = pre.next_window(trade, now);
    let i = key_index(pre.recent_trades.skeys(), trade.asset_id@);
    if i >= 0 {
        &&& post.recent_trades.skeys() == pre.recent_trades.skeys()
        &&& post.recent_trades.svals()[i]@ == w
        &&& forall|j: int|
            0 <= j < pre.recent_trades.spec_len() && j != i ==> post.recent_trades.svals()[j]
                == pre.recent_trades.svals()[j]
    } else {
        &&& post.recent_trades.skeys() == pre.recent_trades.skeys().push(trade.asset_id@)
        &&& post.recent_trades.svals().last()@ == w
        &&& forall|j: int|
            0 <= j < pre.recent_trades.spec_len() ==> post.recent_trades.svals()[j]
                == pre.recent_trades.svals()[j]
    }
}

/// The alert describes exactly the window it fired from: the question and
/// asset of the trade, one name per distinct trader, the dominant side with
/// ties to BUY, and the window's total size.
pub open spec fn alert_reports_window(
    a: ConvergenceAlert,
    trade: LiveTrade,
    w: Seq<ConvEntry>,
    window_secs: u64,
) -> bool {
    &&& a.question@ == trade.question@
    &&& a.asset_id@ == trade.asset_id@
    &&& a.outcome@ == trade.outcome@
    &&& a.trader_count == distinct_traders(w)
    &&& a.traders@.len() == a.trader_count
    &&& (forall|x: int, y: int|
        0 <= x < y < a.traders@.len() ==> a.traders@[x]@ != a.traders@[y]@)
    &&& (forall|x: int|
        0 <= x < a.traders@.len() ==> exists|e: int|
            0 <= e < w.len() && w[e].trader@ == #[trigger] a.traders@[x]@)
    &&& (forall|e: int|
        0 <= e < w.len() ==> exists|x: int|
            0 <= x < a.traders@.len() && a.traders@[x]@ == #[trigger] w[e].trader@)
    &&& a.window_seconds == window_secs
    &&& a.side@ == (if 2 * buys_upto(w, w.len() as int) >= w.len() {
        "BUY"@
    } else {
        "SELL"@
    })
    &&& a.total_usdc_micro == total_usdc_upto(w, w.len() as int)
}

/// A window summary: one name per distinct trader, the buy tally, and the
/// total size.
pub struct WindowSummary {
    pub traders: Vec<String>,
    pub buys: usize,
    pub total: u128,
    pub len: usize,
}

pub open spec fn summary_of(s: WindowSummary, w: Seq<ConvEntry>) -> bool {
    &&& s.len == w.len()
    &&& s.traders@.len() == distinct_traders(w)
    &&& (forall|x: int, y: int|
        0 <= x < y < s.traders@.len() ==> s.traders@[x]@ != s.traders@[y]@)
    &&& (forall|x: int|
        0 <= x < s.traders@.len() ==> exists|e: int|
            0 <= e < w.len() && w[e].trader@ == #[trigger] s.traders@[x]@)
    &&& (forall|e: int|
        0 <= e < w.len() ==> exists|x: int|
            0 <= x < s.traders@.len() && s.traders@[x]@ == #[trigger] w[e].trader@)
    &&& s.buys == buys_upto(w, w.len() as int)
    &&& s.buys <= w.len()
    &&& s.total == total_usdc_upto(w, w.len() as int)
}

/// Per-asset sliding windows of curated-trader trades, with alert dedup.
pub struct ConvergenceDetector {
    /// asset identifier → its window of recent trades.
    pub recent_trades: AssocMap<Vec<ConvEntry>>,
    /// Window width in seconds.
    pub window_secs: u64,
    /// Distinct traders needed for an alert.
    pub threshold: usize,
    /// asset identifier → when its last alert fired.
    pub last_alert: AssocMap<u64>,
    /// Most assets tracked at once; the sweep evicts beyond it.
    pub max_assets: usize,
}

impl ConvergenceDetector {
    pub open spec fn wf(&self) -> bool {
        &&& self.recent_trades.wf()
        &&& self.last_alert.wf()
        &&& self.window_secs >= 1
        &&& self.threshold >= 1
        &&& self.max_assets >= 1
    }

    /// A detector with a five-minute window, a two-trader threshold, a
    /// sixty-second dedup interval and room for five hundred assets.
    pub fn new() -> (r: Self)
        ensures
            r.wf(),
            r.window_secs == 300,
            r.threshold == 2,
            r.max_assets == 500,
            r.recent_trades.spec_len() == 0,
            r.last_alert.spec_len() == 0,
    {
        ConvergenceDetector {
            recent_trades: AssocMap::new(),
            window_secs: 300,
            threshold: 2,
            last_alert: AssocMap::new(),
            max_assets: 500,
        }
    }

    /// The window a trade recorded at `now` leaves behind for its asset: the
    /// old entries plus the new one, evicted of everything outside the
    /// window.
    #[verifier::opaque]
    pub open spec fn next_window(&self, trade: LiveTrade, now: u64) -> Seq<ConvEntry> {
        let old_entries: Seq<ConvEntry> = if self.recent_trades.spec_contains(trade.asset_id@) {
            self.recent_trades.spec_get(trade.asset_id@)@
        } else {
            Seq::empty()
        };
        fresh_of(
            old_entries.push(
                ConvEntry {
                    trader: trade.trader,
                    ts: now,
                    side: trade.side,
                    usdc_micro: (crate::money::display_micro_of(
                        trade.usdc_amount@,
                        u64::MAX as nat,
                    )) as u64,
                },
            ),
            now,
            self.window_secs,
        )
    }

    /// Whether recording `trade` at `now` raises an alert: the updated window
    /// reaches the distinct-trader threshold and the dedup interval allows it.
    pub open spec fn fires(&self, trade: LiveTrade, now: u64) -> bool {
        &&& distinct_traders(self.next_window(trade, now)) >= self.threshold
        &&& dedup_allows(self.last_alert, trade.asset_id@, now)
    }

    /// Record one curated trade at time `now`. Appends it to its asset's
    /// window, evicts entries older than the window, and raises an alert
    /// exactly when the window holds enough distinct traders and none fired
    /// for the asset in the last sixty seconds.
    pub fn record_trade(&mut self, trade: &LiveTrade, now: u64) -> (r: Option<ConvergenceAlert>)
        requires
            old(self).wf(),
        ensures
            final(self).wf(),
            final(self).window_secs == old(self).window_secs,
            final(self).threshold == old(self).threshold,
            final(self).max_assets == old(self).max_assets,
            r is Some <==> old(self).fires(*trade, now),
            // The asset's window is updated, other windows are untouched.
            window_updated(*old(self), *final(self), *trade, now),
            // An alert stamps the dedup clock; a quiet record leaves it alone.
            ({
                if r is Some {
                    &&& final(self).last_alert.spec_contains(trade.asset_id@)
                    &&& final(self).last_alert.spec_get(trade.asset_id@) == now
                } else {
                    final(self).last_alert == old(self).last_alert
                }
            }),
            // The alert reports the window exactly.
            match r {
                Some(a) => alert_reports_window(a, *trade, old(self).next_window(*trade, now),
                    old(self).window_secs),
                None => true,
            },
    {
        let summary = self.roll_window(trade, now);
        let ghost w = old(self).next_window(*trade, now);

        if summary.traders.len() < self.threshold {
            return None;
        }

        // Dedup: at most one alert per asset per interval.
        let blocked = match self.last_alert.get(trade.asset_id.as_str()) {
            Some(last) => (now as u128) < (*last as u128) + 60,
            None => false,
        };
        if blocked {
            return None;
        }
        self.last_alert.insert(trade.asset_id.clone(), now);

        let side = if summary.buys >= summary.len - summary.buys {
            "BUY".to_owned()
        } else {
            "SELL".to_owned()
        };
        let count = summary.traders.len();
        let alert = ConvergenceAlert {
            question: trade.question.clone(),
            asset_id: trade.asset_id.clone(),
            outcome: trade.outcome.clone(),
            traders: summary.traders,
            trader_count: count,
            window_seconds: self.window_secs,
            side,
            total_usdc_micro: summary.total,
        };
        proof {
            assert(alert.question@ == trade.question@);
            assert(alert.trader_count == distinct_traders(w));
            assert(alert.traders@.len() == alert.trader_count);
            assert(forall|x: int, y: int|
                0 <= x < y < alert.traders@.len() ==> alert.traders@[x]@ != alert.traders@[y]@);
            assert(forall|x: int|
                0 <= x < alert.traders@.len() ==> exists|e: int|
                    0 <= e < w.len() && w[e].trader@ == #[trigger] alert.traders@[x]@);
            assert(forall|e: int|
                0 <= e < w.len() ==> exists|x: int|
                    0 <= x < alert.traders@.len() && alert.traders@[x]@ == #[trigger] w[
                        e
                    ].trader@);
            assert(alert.window_seconds == old(self).window_secs);
            assert(alert.side@ == (if 2 * buys_upto(w, w.len() as int) >= w.len() {
                "BUY"@
            } else {
                "SELL"@
            }));
            assert(alert.total_usdc_micro == total_usdc_upto(w, w.len() as int));
        }
        Some(alert)
    }

    /// Append the trade to its asset's window, evict stale entries, and
    /// summarize the window that results.
    #[verifier::rlimit(100)]
    #[verifier::spinoff_prover]
    fn roll_window(&mut self, trade: &LiveTrade, now: u64) -> (s: WindowSummary)
        requires
            old(self).wf(),
        ensures
            final(self).wf(),
            final(self).window_secs == old(self).window_secs,
            final(self).threshold == old(self).threshold,
            final(self).max_assets == old(self).max_assets,
            final(self).last_alert == old(self).last_alert,
            window_updated(*old(self), *final(self), *trade, now),
            summary_of(s, old(self).next_window(*trade, now)),
    {
        proof {
            reveal(ConvergenceDetector::next_window);
        }
        let usdc = parse_display_micro(trade.usdc_amount.as_str());
        let entry = ConvEntry {
            trader: trade.trader.clone(),
            ts: now,
            side: trade.side.clone(),
            usdc_micro: usdc,
        };
        let ghost w = old(self).next_window(*trade, now);

        // Append the entry to its asset's window.
        let idx: usize = match self.recent_trades.index_of(trade.asset_id.as_str()) {
            Some(i) => {
                self.recent_trades.push_at(i, entry);
                i
            },
            None => {
                let mut v: Vec<ConvEntry> = Vec::new();
                v.push(entry);
                let n = self.recent_trades.len();
                self.recent_trades.insert(trade.asset_id.clone(), v);
                proof {
                    assert(self.recent_trades.svals()[n as int]@ =~= Seq::<ConvEntry>::empty().push(
                        ConvEntry {
                            trader: trade.trader,
                            ts: now,
                            side: trade.side,
                            usdc_micro: usdc,
                        },
                    ));
                }
                n
            },
        };

        // Evict entries that fell out of the window.
        let stale = self.recent_trades.val_at(idx);
        let mut kept: Vec<ConvEntry> = Vec::new();
        let m = stale.len();
        let ghost appended = stale@;
        let mut i: usize = 0;
        while i < m
            invariant
                m == appended.len(),
                i <= m,
                self.recent_trades.wf(),
                idx < self.recent_trades.spec_len(),
                appended == self.recent_trades.svals()[idx as int]@,
                kept@ == fresh_of(appended.subrange(0, i as int), now, self.window_secs),
            decreases m - i,
        {
            let e = self.recent_trades.val_at(idx);
            let keep = (e[i].ts as u128) + (self.window_secs as u128) > (now as u128);
            proof {
                assert(appended.subrange(0, i + 1).drop_last() =~= appended.subrange(0, i as int));
                assert(appended.subrange(0, i + 1).last() == appended[i as int]);
            }
            if keep {
                let c = &e[i];
                kept.push(
                    ConvEntry {
                        trader: c.trader.clone(),
                        ts: c.ts,
                        side: c.side.clone(),
                        usdc_micro: c.usdc_micro,
                    },
                );
                proof {
                    assert(kept@.last() == appended[i as int]);
                    assert(kept@ =~= fresh_of(appended.subrange(0, i + 1), now, self.window_secs));
                }
            }
            i = i + 1;
        }
        proof {
            assert(appended.subrange(0, m as int) =~= appended);
            assert(kept@ == w);
        }

        // Count distinct traders, collecting one name each.
        let mut traders: Vec<String> = Vec::new();
        let klen = kept.len();
        let mut i2: usize = 0;
        while i2 < klen
            invariant
                klen == kept@.len(),
                i2 <= klen,
                traders@.len() == distinct_traders_upto(kept@, i2 as int),
                forall|x: int, y: int|
                    0 <= x < y < traders@.len() ==> traders@[x]@ != traders@[y]@,
                forall|x: int|
                    0 <= x < traders@.len() ==> exists|e: int|
                        0 <= e < i2 && kept@[e].trader@ == #[trigger] traders@[x]@,
                forall|e: int|
                    0 <= e < i2 ==> exists|x: int|
                        0 <= x < traders@.len() && traders@[x]@ == #[trigger] kept@[e].trader@,
            decreases klen - i2,
        {
            let t = &kept[i2].trader;
            let mut seen = false;
            let tlen = traders.len();
            let mut j: usize = 0;
            while j < tlen
                invariant
                    tlen == traders@.len(),
                    j <= tlen,
                    seen == exists|x: int| 0 <= x < j && traders@[x]@ == t@,
                    t@ == kept@[i2 as int].trader@,
                    i2 < kept@.len(),
                decreases tlen - j,
            {
                if str_eq(traders[j].as_str(), t.as_str()) {
                    seen = true;
                    proof {
                        assert(traders@[j as int]@ == t@);
                    }
                }
                j = j + 1;
            }
            proof {
                if seen {
                    assert(!first_by_trader(kept@, i2 as int)) by {
                        let x = choose|x: int| 0 <= x < traders@.len() && traders@[x]@ == t@;
                        let e = choose|e: int| 0 <= e < i2 && kept@[e].trader@ == traders@[x]@;
                        assert(kept@[e].trader@ == kept@[i2 as int].trader@);
                    }
                } else {
                    assert(first_by_trader(kept@, i2 as int)) by {
                        let cur = kept@[i2 as int].trader@;
                        assert forall|e: int| 0 <= e < i2 implies kept@[e].trader@ != cur by {
                            assert(exists|x: int|
                                0 <= x < traders@.len() && traders@[x]@ == kept@[e].trader@);
                            let x = choose|x: int|
                                0 <= x < traders@.len() && traders@[x]@ == kept@[e].trader@;
                            assert(traders@[x]@ != cur);
                        }
                    }
                }
            }
            let ghost pre = traders@;
            if !seen {
                traders.push(t.clone());
            }
            proof {
                assert(forall|x: int| 0 <= x < pre.len() ==> traders@[x] == pre[x]);
                assert forall|e: int| 0 <= e < i2 + 1 implies exists|x: int|
                    0 <= x < traders@.len() && traders@[x]@ == #[trigger] kept@[e].trader@ by {
                    if e < i2 {
                        assert(exists|x: int| 0 <= x < pre.len() && pre[x]@ == kept@[e].trader@);
                        let x = choose|x: int| 0 <= x < pre.len() && pre[x]@ == kept@[e].trader@;
                        assert(traders@[x]@ == kept@[e].trader@);
                    } else {
                        if seen {
                            let x = choose|x: int| 0 <= x < pre.len() && pre[x]@ == t@;
                            assert(traders@[x]@ == kept@[e].trader@);
                        } else {
                            assert(traders@[traders@.len() - 1]@ == kept@[e].trader@);
                        }
                    }
                }
            }
            i2 = i2 + 1;
        }

        // Dominant-side tally.
        let mut buys: usize = 0;
        let mut i3: usize = 0;
        while i3 < klen
            invariant
                klen == kept@.len(),
                i3 <= klen,
                buys == buys_upto(kept@, i3 as int),
                buys <= i3,
            decreases klen - i3,
        {
            if str_eq(kept[i3].side.as_str(), "buy") {
                buys = buys + 1;
            }
            i3 = i3 + 1;
        }

        // Total size moved inside the window.
        let mut total: u128 = 0;
        let mut i4: usize = 0;
        while i4 < klen
            invariant
                klen == kept@.len(),
                i4 <= klen,
                total == total_usdc_upto(kept@, i4 as int),
                total <= (i4 as nat) * (u64::MAX as nat),
            decreases klen - i4,
        {
            proof {
                assert((i4 as nat) * (u64::MAX as nat) + (u64::MAX as nat) == ((i4 + 1) as nat) * (
                u64::MAX as nat)) by (nonlinear_arith);
                assert((klen as nat) * (u64::MAX as nat) <= (usize::MAX as nat) * (u64::MAX as nat))
                    by (nonlinear_arith)
                    requires
                        klen <= usize::MAX,
                ;
            }
            total = total + (kept[i4].usdc_micro as u128);
            i4 = i4 + 1;
        }

        self.recent_trades.set_val_at(idx, kept);
        let out = WindowSummary { traders, buys, total, len: klen };
        proof {
            assert(out.len == w.len());
            assert(out.traders@.len() == distinct_traders(w));
            assert(forall|x: int, y: int|
                0 <= x < y < out.traders@.len() ==> out.traders@[x]@ != out.traders@[y]@);
            assert(forall|x: int|
                0 <= x < out.traders@.len() ==> exists|e: int|
                    0 <= e < w.len() && w[e].trader@ == #[trigger] out.traders@[x]@);
            assert(forall|e: int|
                0 <= e < w.len() ==> exists|x: int|
                    0 <= x < out.traders@.len() && out.traders@[x]@ == #[trigger] w[e].trader@);
            assert(out.buys == buys_upto(w, w.len() as int));
            assert(out.total == total_usdc_upto(w, w.len() as int));
        }
        out
    }
}

/// How many of the first `i` windows still hold a fresh entry at `now`.
pub open spec fn live_count_upto(
    m: AssocMap<Vec<ConvEntry>>,
    now: u64,
    window: u64,
    i: int,
) -> nat
    decreases i,
{
    if i <= 0 || i > m.svals().len() {
        0
    } else {
        live_count_upto(m, now, window, i - 1) + if fresh_of(m.svals()[i - 1]@, now, window).len()
            > 0 {
            1nat
        } else {
            0nat
        }
    }
}

impl ConvergenceDetector {
    /// Periodic cleanup: evict stale entries everywhere, drop assets whose
    /// windows emptied, forget alert stamps older than two minutes, and while
    /// more assets remain than the cap allows, drop the asset whose oldest
    /// entry is oldest.
    pub fn sweep(&mut self, now: u64)
        requires
            old(self).wf(),
        ensures
            final(self).wf(),
            final(self).window_secs == old(self).window_secs,
            final(self).threshold == old(self).threshold,
            final(self).max_assets == old(self).max_assets,
            // Alert stamps are kept exactly while younger than two minutes.
            forall|k: Seq<char>|
                final(self).last_alert.spec_contains(k) <==> (#[trigger] old(
                    self,
                ).last_alert.spec_contains(k) && now < old(self).last_alert.spec_get(k) + 120),
            forall|k: Seq<char>|
                final(self).last_alert.spec_contains(k) ==> final(self).last_alert.spec_get(k)
                    == old(self).last_alert.spec_get(k),
            // Every kept asset was tracked, with exactly its fresh entries.
            forall|k: Seq<char>|
                #[trigger] final(self).recent_trades.spec_contains(k) ==> old(
                    self,
                ).recent_trades.spec_contains(k) && final(self).recent_trades.spec_get(k)@
                    == fresh_of(
                    old(self).recent_trades.spec_get(k)@,
                    now,
                    old(self).window_secs,
                ) && final(self).recent_trades.spec_get(k)@.len() > 0,
            // No asset beyond the cap stays tracked.
            final(self).recent_trades.spec_len() <= old(self).max_assets,
            // Under the cap, every asset with a live window is kept.
            live_count_upto(
                old(self).recent_trades,
                now,
                old(self).window_secs,
                old(self).recent_trades.svals().len() as int,
            ) <= old(self).max_assets ==> forall|k: Seq<char>|
                (#[trigger] old(self).recent_trades.spec_contains(k) && fresh_of(
                    old(self).recent_trades.spec_get(k)@,
                    now,
                    old(self).window_secs,
                ).len() > 0) ==> final(self).recent_trades.spec_contains(k),
    {
        let ghost pre = self.recent_trades;
        let ghost w = self.window_secs;

        // Rebuild the window table, keeping only assets that stay live.
        let mut live: AssocMap<Vec<ConvEntry>> = AssocMap::new();
        let n = self.recent_trades.len();
        let mut i: usize = 0;
        while i < n
            invariant
                self == old(self),
                pre == self.recent_trades,
                w == self.window_secs,
                self.wf(),
                n == pre.spec_len(),
                i <= n,
                live.wf(),
                live.spec_len() == live_count_upto(pre, now, w, i as int),
                forall|k: Seq<char>|
                    #[trigger] live.spec_contains(k) <==> exists|j: int|
                        0 <= j < i && pre.skeys()[j] == k && fresh_of(pre.svals()[j]@, now, w).len()
                            > 0,
                forall|k: Seq<char>|
                    #[trigger] live.spec_contains(k) ==> pre.spec_contains(k) && live.spec_get(k)@
                        == fresh_of(pre.spec_get(k)@, now, w) && live.spec_get(k)@.len() > 0,
            decreases n - i,
        {
            let entries = self.recent_trades.val_at(i);
            let m = entries.len();
            let ghost cur = entries@;
            let mut kept: Vec<ConvEntry> = Vec::new();
            let mut j: usize = 0;
            while j < m
                invariant
                    i < self.recent_trades.spec_len(),
                    self.recent_trades.wf(),
                    cur == self.recent_trades.svals()[i as int]@,
                    m == cur.len(),
                    j <= m,
                    w == self.window_secs,
                    kept@ == fresh_of(cur.subrange(0, j as int), now, w),
                decreases m - j,
            {
                let e = self.recent_trades.val_at(i);
                proof {
                    assert(cur.subrange(0, j + 1).drop_last() =~= cur.subrange(0, j as int));
                    assert(cur.subrange(0, j + 1).last() == cur[j as int]);
                }
                if (e[j].ts as u128) + (self.window_secs as u128) > (now as u128) {
                    let c = &e[j];
                    kept.push(
                        ConvEntry {
                            trader: c.trader.clone(),
                            ts: c.ts,
                            side: c.side.clone(),
                            usdc_micro: c.usdc_micro,
                        },
                    );
                    proof {
                        assert(kept@ =~= fresh_of(cur.subrange(0, j + 1), now, w));
                    }
                }
                j = j + 1;
            }
            proof {
                assert(cur.subrange(0, m as int) =~= cur);
            }
            let ghost prelive = live;
            let ghost keptv = kept@;
            let ghost didins = keptv.len() > 0;
            let ghost key0 = pre.skeys()[i as int];
            if kept.len() > 0 {
                let key = self.recent_trades.key_at(i);
                proof {
                    // The key is new to `live`: it only holds earlier keys,
                    // all distinct from this one.
                    if live.spec_contains(key@) {
                        let j0 = choose|j0: int|
                            0 <= j0 < i && pre.skeys()[j0] == key@ && fresh_of(
                                pre.svals()[j0]@,
                                now,
                                w,
                            ).len() > 0;
                        assert(pre.skeys()[j0] == pre.skeys()[i as int]);
                        assert(false);
                    }
                }
                live.insert(key.clone(), kept);
                proof {
                    crate::assoc::lemma_key_index_occurs(pre.skeys(), key@, i as int);
                    crate::assoc::lemma_key_index_found(pre.skeys(), key@, 0);
                    assert(key_index(pre.skeys(), key0) == i as int);
                    assert(pre.spec_get(key0)@ == cur);
                }
            }
            proof {
                // A key of the new table is an old one or the one inserted.
                if didins {
                    assert(live.skeys() == prelive.skeys().push(key0));
                    assert forall|k: Seq<char>| #[trigger] live.spec_contains(k) implies (
                        prelive.spec_contains(k) || k == key0) by {
                        crate::assoc::lemma_contains_push(prelive.skeys(), key0, k);
                    }
                    assert forall|k: Seq<char>|
                        prelive.spec_contains(k) implies #[trigger] live.spec_contains(k)
                            && live.spec_get(k) == prelive.spec_get(k) by {
                        crate::assoc::lemma_key_index_found(prelive.skeys(), k, 0);
                        crate::assoc::lemma_key_index_push_preserves(
                            prelive.skeys(),
                            key0,
                            k,
                            0,
                        );
                        assert(live.svals()[key_index(prelive.skeys(), k)] == prelive.svals()[
                            key_index(prelive.skeys(), k)
                        ]);
                    }
                    assert(live.spec_contains(key0) && live.spec_get(key0)@ == keptv);
                } else {
                    assert(live == prelive);
                }
                assert forall|k: Seq<char>| #[trigger] live.spec_contains(k) implies exists|j0: int|
                    0 <= j0 < i + 1 && pre.skeys()[j0] == k && fresh_of(
                        pre.svals()[j0]@,
                        now,
                        w,
                    ).len() > 0 by {
                    if prelive.spec_contains(k) {
                        let j0 = choose|j0: int|
                            0 <= j0 < i && pre.skeys()[j0] == k && fresh_of(
                                pre.svals()[j0]@,
                                now,
                                w,
                            ).len() > 0;
                        assert(0 <= j0 < i + 1 && pre.skeys()[j0] == k && fresh_of(
                            pre.svals()[j0]@,
                            now,
                            w,
                        ).len() > 0);
                    } else {
                        assert(k == key0);
                        assert(keptv == fresh_of(pre.svals()[i as int]@, now, w));
                        assert(pre.skeys()[i as int] == k && fresh_of(
                            pre.svals()[i as int]@,
                            now,
                            w,
                        ).len() > 0);
                    }
                }
                assert forall|k: Seq<char>|
                    (exists|j0: int|
                        0 <= j0 < i + 1 && pre.skeys()[j0] == k && fresh_of(
                            pre.svals()[j0]@,
                            now,
                            w,
                        ).len() > 0) implies #[trigger] live.spec_contains(k) by {
                    let j0 = choose|j0: int|
                        0 <= j0 < i + 1 && pre.skeys()[j0] == k && fresh_of(
                            pre.svals()[j0]@,
                            now,
                            w,
                        ).len() > 0;
                    if j0 < i {
                        assert(prelive.spec_contains(k));
                    } else {
                        assert(k == key0);
                        assert(keptv == fresh_of(pre.svals()[i as int]@, now, w));
                        assert(didins);
                    }
                }
                assert forall|k: Seq<char>| #[trigger] live.spec_contains(k) implies
                    pre.spec_contains(k) && live.spec_get(k)@ == fresh_of(pre.spec_get(k)@, now, w)
                        && live.spec_get(k)@.len() > 0 by {
                    if prelive.spec_contains(k) {
                        assert(live.spec_get(k) == prelive.spec_get(k));
                    } else {
                        assert(k == key0);
                        assert(live.spec_get(k)@ == keptv);
                        assert(key_index(pre.skeys(), key0) == i as int) by {
                            crate::assoc::lemma_key_index_occurs(pre.skeys(), key0, i as int);
                            crate::assoc::lemma_key_index_found(pre.skeys(), key0, 0);
                        }
                        assert(pre.spec_get(k)@ == pre.svals()[i as int]@);
                        assert(keptv == fresh_of(pre.svals()[i as int]@, now, w));
                    }
                }
            }
            i = i + 1;
        }

        // While over the cap, drop the asset whose oldest entry is oldest.
        let ghost capped = live.spec_len() > self.max_assets;
        if live.len() > self.max_assets {
        while live.len() > self.max_assets
            invariant
                self == old(self),
                self.wf(),
                live.wf(),
                forall|k: Seq<char>|
                    #[trigger] live.spec_contains(k) ==> pre.spec_contains(k) && live.spec_get(k)@
                        == fresh_of(pre.spec_get(k)@, now, w) && live.spec_get(k)@.len() > 0,
                w == self.window_secs,
            decreases live.spec_len(),
        {
            let m = live.len();
            let mut oldest_idx: usize = 0;
            let mut oldest_ts: u64 = u64::MAX;
            let mut ii: usize = 0;
            while ii < m
                invariant
                    live.wf(),
                    m == live.spec_len(),
                    m > 0,
                    ii <= m,
                    oldest_idx < m,
                decreases m - ii,
            {
                let entries = live.val_at(ii);
                let elen = entries.len();
                let mut mn: u64 = u64::MAX;
                let mut jj: usize = 0;
                while jj < elen
                    invariant
                        live.wf(),
                        ii < live.spec_len(),
                        elen == live.svals()[ii as int]@.len(),
                        jj <= elen,
                    decreases elen - jj,
                {
                    let e = live.val_at(ii);
                    if e[jj].ts < mn {
                        mn = e[jj].ts;
                    }
                    jj = jj + 1;
                }
                if mn < oldest_ts {
                    oldest_ts = mn;
                    oldest_idx = ii;
                }
                ii = ii + 1;
            }
            let ghost before = live;
            live.remove_at(oldest_idx);
            proof {
                assert forall|k: Seq<char>| #[trigger] live.spec_contains(k) implies
                    before.spec_contains(k) by {
                    crate::assoc::lemma_key_index_found(live.skeys(), k, 0);
                    let ix = key_index(live.skeys(), k);
                    let orig = if ix < oldest_idx {
                        ix
                    } else {
                        ix + 1
                    };
                    assert(before.skeys()[orig] == k);
                    crate::assoc::lemma_key_index_occurs(before.skeys(), k, orig);
                }
                assert forall|k: Seq<char>| #[trigger] live.spec_contains(k) implies live.spec_get(
                    k,
                ) == before.spec_get(k) by {
                    crate::assoc::lemma_key_index_found(live.skeys(), k, 0);
                    let ix = key_index(live.skeys(), k);
                    let orig = if ix < oldest_idx {
                        ix
                    } else {
                        ix + 1
                    };
                    assert(before.skeys()[orig] == k);
                    crate::assoc::lemma_key_index_occurs(before.skeys(), k, orig);
                    crate::assoc::lemma_key_index_found(before.skeys(), k, 0);
                    assert(key_index(before.skeys(), k) == orig);
                    assert(live.svals()[ix] == before.svals()[orig]);
                }
            }
        }
        }
        self.recent_trades = live;
        proof {
            let n0 = pre.spec_len() as int;
            if live_count_upto(pre, now, w, n0) <= self.max_assets {
                assert(!capped);
                assert forall|k: Seq<char>|
                    (#[trigger] pre.spec_contains(k) && fresh_of(pre.spec_get(k)@, now, w).len()
                        > 0) implies self.recent_trades.spec_contains(k) by {
                    crate::assoc::lemma_key_index_found(pre.skeys(), k, 0);
                    let j0 = key_index(pre.skeys(), k);
                    assert(0 <= j0 < n0 && pre.skeys()[j0] == k && fresh_of(
                        pre.svals()[j0]@,
                        now,
                        w,
                    ).len() > 0);
                }
            }
        }

        // Forget alert stamps older than two minutes.
        let ghost prela = self.last_alert;
        let mut la: AssocMap<u64> = AssocMap::new();
        let nla = self.last_alert.len();
        let mut i5: usize = 0;
        while i5 < nla
            invariant
                self.last_alert == prela,
                prela.wf(),
                nla == prela.spec_len(),
                i5 <= nla,
                la.wf(),
                forall|k: Seq<char>|
                    #[trigger] la.spec_contains(k) <==> exists|j: int|
                        0 <= j < i5 && prela.skeys()[j] == k && now < prela.svals()[j] + 120,
                forall|k: Seq<char>|
                    #[trigger] la.spec_contains(k) ==> prela.spec_contains(k) && la.spec_get(k)
                        == prela.spec_get(k),
            decreases nla - i5,
        {
            let ts = *self.last_alert.val_at(i5);
            let ghost prelaacc = la;
            let ghost lkey0 = prela.skeys()[i5 as int];
            let ghost ldid = (now as int) < (ts as int) + 120;
            if (now as u128) < (ts as u128) + 120 {
                let key = self.last_alert.key_at(i5);
                proof {
                    if la.spec_contains(key@) {
                        let j0 = choose|j0: int|
                            0 <= j0 < i5 && prela.skeys()[j0] == key@ && now < prela.svals()[j0]
                                + 120;
                        assert(prela.skeys()[j0] == prela.skeys()[i5 as int]);
                        assert(false);
                    }
                }
                la.insert(key.clone(), ts);
                proof {
                    crate::assoc::lemma_key_index_occurs(prela.skeys(), key@, i5 as int);
                    crate::assoc::lemma_key_index_found(prela.skeys(), key@, 0);
                    assert(key_index(prela.skeys(), lkey0) == i5 as int);
                }
            }
            proof {
                if ldid {
                    assert(la.skeys() == prelaacc.skeys().push(lkey0));
                    assert forall|k: Seq<char>| #[trigger] la.spec_contains(k) implies (
                        prelaacc.spec_contains(k) || k == lkey0) by {
                        crate::assoc::lemma_contains_push(prelaacc.skeys(), lkey0, k);
                    }
                    assert forall|k: Seq<char>|
                        prelaacc.spec_contains(k) implies #[trigger] la.spec_contains(k)
                            && la.spec_get(k) == prelaacc.spec_get(k) by {
                        crate::assoc::lemma_key_index_found(prelaacc.skeys(), k, 0);
                        crate::assoc::lemma_key_index_push_preserves(
                            prelaacc.skeys(),
                            lkey0,
                            k,
                            0,
                        );
                        assert(la.svals()[key_index(prelaacc.skeys(), k)] == prelaacc.svals()[
                            key_index(prelaacc.skeys(), k)
                        ]);
                    }
                    assert(la.spec_contains(lkey0) && la.spec_get(lkey0) == ts);
                } else {
                    assert(la == prelaacc);
                }
                assert forall|k: Seq<char>| #[trigger] la.spec_contains(k) implies exists|j0: int|
                    0 <= j0 < i5 + 1 && prela.skeys()[j0] == k && now < prela.svals()[j0]
                        + 120 by {
                    if prelaacc.spec_contains(k) {
                        let j0 = choose|j0: int|
                            0 <= j0 < i5 && prela.skeys()[j0] == k && now < prela.svals()[j0] + 120;
                        assert(0 <= j0 < i5 + 1 && prela.skeys()[j0] == k && now < prela.svals()[j0]
                            + 120);
                    } else {
                        assert(k == lkey0);
                        assert(ts == prela.svals()[i5 as int]);
                        assert(prela.skeys()[i5 as int] == k && now < prela.svals()[i5 as int]
                            + 120);
                    }
                }
                assert forall|k: Seq<char>|
                    (exists|j0: int|
                        0 <= j0 < i5 + 1 && prela.skeys()[j0] == k && now < prela.svals()[j0]
                            + 120) implies #[trigger] la.spec_contains(k) by {
                    let j0 = choose|j0: int|
                        0 <= j0 < i5 + 1 && prela.skeys()[j0] == k && now < prela.svals()[j0] + 120;
                    if j0 < i5 {
                        assert(prelaacc.spec_contains(k));
                    } else {
                        assert(k == lkey0);
                        assert(ldid);
                    }
                }
                assert forall|k: Seq<char>| #[trigger] la.spec_contains(k) implies
                    prela.spec_contains(k) && la.spec_get(k) == prela.spec_get(k) by {
                    if prelaacc.spec_contains(k) {
                        assert(la.spec_get(k) == prelaacc.spec_get(k));
                    } else {
                        assert(k == lkey0);
                        assert(key_index(prela.skeys(), lkey0) == i5 as int) by {
                            crate::assoc::lemma_key_index_occurs(prela.skeys(), lkey0, i5 as int);
                            crate::assoc::lemma_key_index_found(prela.skeys(), lkey0, 0);
                        }
                        assert(la.spec_get(k) == ts);
                        assert(prela.spec_get(k) == prela.svals()[i5 as int]);
                    }
                }
            }
            i5 = i5 + 1;
        }
        self.last_alert = la;
        proof {
            assert forall|k: Seq<char>|
                #[trigger] prela.spec_contains(k) && now < prela.spec_get(k) + 120 implies
                self.last_alert.spec_contains(k) by {
                crate::assoc::lemma_key_index_found(prela.skeys(), k, 0);
                let j0 = key_index(prela.skeys(), k);
                assert(prela.skeys()[j0] == k && now < prela.svals()[j0] + 120);
            }
            assert forall|k: Seq<char>| #[trigger] self.last_alert.spec_contains(k) implies
                prela.spec_contains(k) && now < prela.spec_get(k) + 120 by {
                let j0 = choose|j0: int|
                    0 <= j0 < nla && prela.skeys()[j0] == k && now < prela.svals()[j0] + 120;
                crate::assoc::lemma_key_index_occurs(prela.skeys(), k, j0);
                crate::assoc::lemma_key_index_found(prela.skeys(), k, 0);
                assert(key_index(prela.skeys(), k) == j0);
            }
        }
    }
}

/// Convergence dedup: once an alert has fired for an asset, no second alert
/// can fire for it until sixty seconds have passed — whatever trades arrive.
pub proof fn lemma_convergence_dedup(
    d: ConvergenceDetector,
    trade: LiveTrade,
    now_fired: u64,
    now_again: u64,
)
    requires
        d.last_alert.spec_contains(trade.asset_id@),
        d.last_alert.spec_get(trade.asset_id@) == now_fired,
        now_again < now_fired + 60,
    ensures
        !d.fires(trade, now_again),
{
}

} // verus!
