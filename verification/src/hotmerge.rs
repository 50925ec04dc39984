//! Merging sibling tokens into one market row.
//!
//! Fills arrive per token, but the Yes and No side of one question are the
//! same market: the hot-markets view folds them into a single row whose
//! volume is the sides' sum and whose representative token is the
//! higher-volume side.

use vstd::prelude::*;

use crate::assoc::{key_index, AssocMap};
use crate::money::display_micro_of;

verus! {

/// One per-token stat row, already enriched with its market's question.
pub struct HotRow {
    pub question: String,
    pub display_id: String,
    pub category: String,
    pub volume: String,
    pub trade_count: u64,
    pub unique_traders: u64,
    pub last_price: String,
    pub last_trade: String,
}

/// One merged market row.
pub struct HotAgg {
    pub token_id: String,
    pub all_token_ids: Vec<String>,
    pub category: String,
    pub volume_micro: u128,
    pub trade_count: u64,
    pub unique_traders: u64,
    pub last_price: String,
    pub last_trade: String,
}

/// A row's volume in micro-USDC.
pub open spec fn row_volume(r: HotRow) -> nat {
    display_micro_of(r.volume@, u64::MAX as nat)
}

/// Total volume of the first `i` rows that belong to question `q`.
pub open spec fn group_volume_upto(rows: Seq<HotRow>, q: Seq<char>, i: int) -> nat
    decreases i,
{
    if i <= 0 || i > rows.len() {
        0
    } else {
        group_volume_upto(rows, q, i - 1) + if rows[i - 1].question@ == q {
            row_volume(rows[i - 1])
        } else {
            0
        }
    }
}

/// Total trade count of the first `i` rows of question `q`, saturating.
pub open spec fn group_trades_upto(rows: Seq<HotRow>, q: Seq<char>, i: int) -> nat
    decreases i,
{
    if i <= 0 || i > rows.len() {
        0
    } else {
        group_trades_upto(rows, q, i - 1) + if rows[i - 1].question@ == q {
            rows[i - 1].trade_count as nat
        } else {
            0
        }
    }
}

/// The representative token of question `q` after the first `i` rows: each
/// matching row takes over when its own volume beats the volume accumulated
/// before it.
pub open spec fn group_rep_upto(rows: Seq<HotRow>, q: Seq<char>, i: int) -> Seq<char>
    decreases i,
{
    if i <= 0 || i > rows.len() {
        Seq::empty()
    } else {
        let prev = group_rep_upto(rows, q, i - 1);
        let prev_vol = group_volume_upto(rows, q, i - 1);
        if rows[i - 1].question@ == q {
            if prev_vol == 0 || row_volume(rows[i - 1]) > prev_vol {
                rows[i - 1].display_id@
            } else {
                prev
            }
        } else {
            prev
        }
    }
}

/// Unique-trader total of the first `i` rows of question `q`, saturating.
pub open spec fn group_traders_upto(rows: Seq<HotRow>, q: Seq<char>, i: int) -> nat
    decreases i,
{
    if i <= 0 || i > rows.len() {
        0
    } else {
        group_traders_upto(rows, q, i - 1) + if rows[i - 1].question@ == q {
            rows[i - 1].unique_traders as nat
        } else {
            0
        }
    }
}

/// The display identifiers of question `q`'s rows among the first `i`, in
/// order: the merged row's sibling-token list.
pub open spec fn group_ids_upto(rows: Seq<HotRow>, q: Seq<char>, i: int) -> Seq<Seq<char>>
    decreases i,
{
    if i <= 0 || i > rows.len() {
        Seq::empty()
    } else {
        let rest = group_ids_upto(rows, q, i - 1);
        if rows[i - 1].question@ == q {
            rest.push(rows[i - 1].display_id@)
        } else {
            rest
        }
    }
}

/// The latest trade stamp and its price for question `q` after the first `i`
/// rows: a later-stamped sibling takes both fields over.
pub open spec fn group_last_upto(rows: Seq<HotRow>, q: Seq<char>, i: int) -> (Seq<char>, Seq<char>)
    decreases i,
{
    if i <= 0 || i > rows.len() {
        (Seq::empty(), Seq::empty())
    } else {
        let prev = group_last_upto(rows, q, i - 1);
        if rows[i - 1].question@ == q {
            if group_ids_upto(rows, q, i - 1).len() == 0 || seq_later(
                rows[i - 1].last_trade@,
                prev.0,
            ) {
                (rows[i - 1].last_trade@, rows[i - 1].last_price@)
            } else {
                prev
            }
        } else {
            prev
        }
    }
}

/// Merge per-token rows into one aggregate per question. Every question of
/// an input row appears exactly once; its volume, trade count and trader
/// count are the sums over its rows, its sibling-token list holds each row's
/// display identifier in order, its representative token is the higher-volume
/// side, and its price and stamp come from the latest-traded sibling.
pub fn merge_hot_rows(rows: &Vec<HotRow>) -> (r: AssocMap<HotAgg>)
    requires
        rows@.len() <= 100_000,
    ensures
        r.wf(),
        forall|q: Seq<char>|
            #[trigger] r.spec_contains(q) <==> exists|j: int|
                0 <= j < rows@.len() && (#[trigger] rows@[j]).question@ == q,
        forall|q: Seq<char>|
            #[trigger] r.spec_contains(q) ==> {
                let a = r.spec_get(q);
                &&& a.volume_micro as nat == group_volume_upto(rows@, q, rows@.len() as int)
                &&& a.trade_count as nat == (if group_trades_upto(rows@, q, rows@.len() as int)
                    > u64::MAX as nat {
                    u64::MAX as nat
                } else {
                    group_trades_upto(rows@, q, rows@.len() as int)
                })
                &&& a.token_id@ == group_rep_upto(rows@, q, rows@.len() as int)
                &&& a.all_token_ids.deep_view() == group_ids_upto(rows@, q, rows@.len() as int)
                &&& a.unique_traders as nat == (if group_traders_upto(rows@, q, rows@.len() as int)
                    > u64::MAX as nat {
                    u64::MAX as nat
                } else {
                    group_traders_upto(rows@, q, rows@.len() as int)
                })
                &&& (a.last_trade@, a.last_price@) == group_last_upto(rows@, q, rows@.len() as int)
            },
{
    let n = rows.len();
    let mut merged: AssocMap<HotAgg> = AssocMap::new();
    let mut i: usize = 0;
    while i < n
        invariant
            n == rows@.len(),
            n <= 100_000,
            i <= n,
            merged.wf(),
            forall|q: Seq<char>|
                #[trigger] merged.spec_contains(q) <==> exists|j: int|
                    0 <= j < i && (#[trigger] rows@[j]).question@ == q,
            forall|q: Seq<char>|
                #[trigger] merged.spec_contains(q) ==> {
                    let a = merged.spec_get(q);
                    &&& a.volume_micro as nat == group_volume_upto(rows@, q, i as int)
                    &&& a.trade_count as nat == (if group_trades_upto(rows@, q, i as int)
                        > u64::MAX as nat {
                        u64::MAX as nat
                    } else {
                        group_trades_upto(rows@, q, i as int)
                    })
                    &&& a.token_id@ == group_rep_upto(rows@, q, i as int)
                    &&& a.all_token_ids.deep_view() == group_ids_upto(rows@, q, i as int)
                    &&& a.unique_traders as nat == (if group_traders_upto(rows@, q, i as int)
                        > u64::MAX as nat {
                        u64::MAX as nat
                    } else {
                        group_traders_upto(rows@, q, i as int)
                    })
                    &&& (a.last_trade@, a.last_price@) == group_last_upto(rows@, q, i as int)
                },
        decreases n - i,
    {
        let row = &rows[i];
        let vol = crate::money::parse_display_micro(row.volume.as_str()) as u128;
        let ghost pre = merged;
        let ghost q0 = rows@[i as int].question@;
        proof {
            // Volumes stay far inside u128: each row adds at most a 64-bit
            // amount.
            lemma_group_volume_bound(rows@, q0, i as int);
        }
        match merged.index_of(row.question.as_str()) {
            Some(at) => {
                let cur = merged.val_at(at);
                let ghost gcur = *cur;
                proof {
                    assert(merged.spec_contains(q0));
                    assert(merged.spec_get(q0) == gcur);
                    assert(gcur.volume_micro as nat == group_volume_upto(rows@, q0, i as int));
                    lemma_group_volume_bound(rows@, q0, i as int);
                    assert((i as nat) * (u64::MAX as nat) <= 100_000 * (u64::MAX as nat))
                        by (nonlinear_arith)
                        requires
                            i <= 100_000,
                    ;
                }
                let new_vol = cur.volume_micro + (vol as u128);
                let new_tc = if cur.trade_count > u64::MAX - row.trade_count {
                    u64::MAX
                } else {
                    cur.trade_count + row.trade_count
                };
                let new_ut = if cur.unique_traders > u64::MAX - row.unique_traders {
                    u64::MAX
                } else {
                    cur.unique_traders + row.unique_traders
                };
                let take_over = vol > cur.volume_micro || cur.volume_micro == 0;
                let mut ids = crate::resolution::clone_strings(&cur.all_token_ids);
                let ghost preids = ids.deep_view();
                ids.push(row.display_id.clone());
                proof {
                    assert(ids.deep_view() =~= preids.push(rows@[i as int].display_id@));
                    // A merged question always lists at least one sibling.
                    assert(group_ids_upto(rows@, q0, i as int).len() > 0) by {
                        lemma_group_ids_nonempty(rows@, q0, i as int);
                    }
                }
                let newer = later_string(row.last_trade.as_str(), cur.last_trade.as_str());
                let updated = HotAgg {
                    token_id: if take_over {
                        row.display_id.clone()
                    } else {
                        cur.token_id.clone()
                    },
                    all_token_ids: ids,
                    category: cur.category.clone(),
                    volume_micro: new_vol,
                    trade_count: new_tc,
                    unique_traders: new_ut,
                    last_price: if newer {
                        row.last_price.clone()
                    } else {
                        cur.last_price.clone()
                    },
                    last_trade: if newer {
                        row.last_trade.clone()
                    } else {
                        cur.last_trade.clone()
                    },
                };
                merged.set_val_at(at, updated);
                proof {
                    assert(key_index(merged.skeys(), q0) == at as int);
                    assert(merged.spec_get(q0).volume_micro as nat == group_volume_upto(
                        rows@,
                        q0,
                        i + 1,
                    ));
                    assert(merged.spec_get(q0).token_id@ == group_rep_upto(rows@, q0, i + 1));
                    assert(merged.spec_get(q0).all_token_ids.deep_view() == group_ids_upto(
                        rows@,
                        q0,
                        i + 1,
                    ));
                    assert((merged.spec_get(q0).last_trade@, merged.spec_get(q0).last_price@)
                        == group_last_upto(rows@, q0, i + 1));
                }
            },
            None => {
                let mut ids: Vec<String> = Vec::new();
                ids.push(row.display_id.clone());
                let fresh = HotAgg {
                    token_id: row.display_id.clone(),
                    all_token_ids: ids,
                    category: row.category.clone(),
                    volume_micro: vol,
                    trade_count: row.trade_count,
                    unique_traders: row.unique_traders,
                    last_price: row.last_price.clone(),
                    last_trade: row.last_trade.clone(),
                };
                merged.insert(row.question.clone(), fresh);
                proof {
                    assert(forall|j: int| 0 <= j < i ==> (#[trigger] rows@[j]).question@ != q0);
                    lemma_group_empty(rows@, q0, i as int);
                    assert(merged.spec_get(q0).all_token_ids.deep_view() =~= group_ids_upto(
                        rows@,
                        q0,
                        i + 1,
                    ));
                    assert(merged.spec_get(q0).volume_micro as nat == group_volume_upto(
                        rows@,
                        q0,
                        i + 1,
                    ));
                    assert(merged.spec_get(q0).token_id@ == group_rep_upto(rows@, q0, i + 1));
                }
            },
        }
        proof {
            assert forall|q: Seq<char>| #[trigger] merged.spec_contains(q) implies exists|j: int|
                0 <= j < i + 1 && (#[trigger] rows@[j]).question@ == q by {
                if pre.spec_contains(q) {
                    let j = choose|j: int| 0 <= j < i && (#[trigger] rows@[j]).question@ == q;
                    assert(0 <= j < i + 1 && rows@[j].question@ == q);
                } else {
                    if key_index(pre.skeys(), q0) >= 0 {
                        assert(merged.skeys() == pre.skeys());
                        assert(false);
                    } else {
                        crate::assoc::lemma_contains_push(pre.skeys(), q0, q);
                        assert(q == q0);
                        assert(rows@[i as int].question@ == q);
                    }
                }
            }
            assert forall|q: Seq<char>|
                (exists|j: int| 0 <= j < i + 1 && (#[trigger] rows@[j]).question@ == q) implies
                #[trigger] merged.spec_contains(q) by {
                let j = choose|j: int| 0 <= j < i + 1 && (#[trigger] rows@[j]).question@ == q;
                if j < i {
                    assert(pre.spec_contains(q));
                    if key_index(pre.skeys(), q0) >= 0 {
                        assert(merged.skeys() == pre.skeys());
                    } else {
                        crate::assoc::lemma_key_index_found(pre.skeys(), q, 0);
                        crate::assoc::lemma_key_index_push_preserves(pre.skeys(), q0, q, 0);
                    }
                } else {
                    assert(q == q0);
                }
            }
            assert forall|q: Seq<char>| #[trigger] merged.spec_contains(q) implies {
                let a = merged.spec_get(q);
                &&& a.volume_micro as nat == group_volume_upto(rows@, q, i + 1)
                &&& a.trade_count as nat == (if group_trades_upto(rows@, q, i + 1) > u64::MAX as nat {
                    u64::MAX as nat
                } else {
                    group_trades_upto(rows@, q, i + 1)
                })
                &&& a.token_id@ == group_rep_upto(rows@, q, i + 1)
                &&& a.all_token_ids.deep_view() == group_ids_upto(rows@, q, i + 1)
                &&& a.unique_traders as nat == (if group_traders_upto(rows@, q, i + 1)
                    > u64::MAX as nat {
                    u64::MAX as nat
                } else {
                    group_traders_upto(rows@, q, i + 1)
                })
                &&& (a.last_trade@, a.last_price@) == group_last_upto(rows@, q, i + 1)
            } by {
                if q != q0 {
                    assert(pre.spec_contains(q));
                    if key_index(pre.skeys(), q0) >= 0 {
                        crate::assoc::lemma_key_index_found(pre.skeys(), q, 0);
                        assert(merged.spec_get(q) == pre.spec_get(q));
                    } else {
                        crate::assoc::lemma_key_index_found(pre.skeys(), q, 0);
                        crate::assoc::lemma_key_index_push_preserves(pre.skeys(), q0, q, 0);
                        assert(merged.spec_get(q) == pre.spec_get(q));
                    }
                } else {
                    if key_index(pre.skeys(), q0) >= 0 {
                        crate::assoc::lemma_key_index_found(pre.skeys(), q0, 0);
                    }
                }
            }
        }
        i = i + 1;
    }
    merged
}

/// A question no prefix row carries has empty group sums.
proof fn lemma_group_empty(rows: Seq<HotRow>, q: Seq<char>, i: int)
    requires
        0 <= i <= rows.len(),
        forall|j: int| 0 <= j < i ==> (#[trigger] rows[j]).question@ != q,
    ensures
        group_volume_upto(rows, q, i) == 0,
        group_trades_upto(rows, q, i) == 0,
        group_rep_upto(rows, q, i) == Seq::<char>::empty(),
        group_ids_upto(rows, q, i) == Seq::<Seq<char>>::empty(),
        group_traders_upto(rows, q, i) == 0,
        group_last_upto(rows, q, i) == (Seq::<char>::empty(), Seq::<char>::empty()),
    decreases i,
{
    if i > 0 {
        lemma_group_empty(rows, q, i - 1);
    }
}

/// A question some prefix row carries lists at least one sibling.
proof fn lemma_group_ids_nonempty(rows: Seq<HotRow>, q: Seq<char>, i: int)
    requires
        0 <= i <= rows.len(),
        exists|j: int| 0 <= j < i && (#[trigger] rows[j]).question@ == q,
    ensures
        group_ids_upto(rows, q, i).len() > 0,
    decreases i,
{
    if i > 0 {
        let j = choose|j: int| 0 <= j < i && (#[trigger] rows[j]).question@ == q;
        if j < i - 1 {
            lemma_group_ids_nonempty(rows, q, i - 1);
        }
    }
}

/// Group volumes stay within a 64-bit amount per row.
proof fn lemma_group_volume_bound(rows: Seq<HotRow>, q: Seq<char>, i: int)
    requires
        0 <= i <= rows.len(),
    ensures
        group_volume_upto(rows, q, i) <= (i as nat) * (u64::MAX as nat),
    decreases i,
{
    if i > 0 {
        lemma_group_volume_bound(rows, q, i - 1);
        assert(((i - 1) as nat) * (u64::MAX as nat) + (u64::MAX as nat) == (i as nat) * (
        u64::MAX as nat)) by (nonlinear_arith)
            requires
                i >= 1,
        ;
        assert(row_volume(rows[i - 1]) <= u64::MAX as nat);
    }
}

/// Lexicographic order on character sequences, by code point.
pub open spec fn seq_later(a: Seq<char>, b: Seq<char>) -> bool
    decreases a.len(),
{
    if b.len() == 0 {
        a.len() > 0
    } else if a.len() == 0 {
        false
    } else if (a[0] as u32) > (b[0] as u32) {
        true
    } else if (a[0] as u32) < (b[0] as u32) {
        false
    } else {
        seq_later(a.skip(1), b.skip(1))
    }
}

/// Whether `a` orders strictly after `b`, code point by code point: the
/// order timestamps sort in.
pub fn later_string(a: &str, b: &str) -> (r: bool)
    ensures
        r == seq_later(a@, b@),
{
    let na = a.unicode_len();
    let nb = b.unicode_len();
    proof {
        assert(a@.skip(0) =~= a@);
        assert(b@.skip(0) =~= b@);
    }
    let mut i: usize = 0;
    loop
        invariant
            na == a@.len(),
            nb == b@.len(),
            i <= na,
            i <= nb,
            seq_later(a@, b@) == seq_later(a@.skip(i as int), b@.skip(i as int)),
        decreases na - i,
    {
        if i >= nb {
            proof {
                assert(b@.skip(i as int).len() == 0);
            }
            return i < na;
        }
        if i >= na {
            proof {
                assert(a@.skip(i as int).len() == 0);
                assert(b@.skip(i as int).len() > 0);
            }
            return false;
        }
        let ca = a.get_char(i) as u32;
        let cb = b.get_char(i) as u32;
        proof {
            assert(a@.skip(i as int)[0] == a@[i as int]);
            assert(b@.skip(i as int)[0] == b@[i as int]);
            assert(a@.skip(i as int).skip(1) =~= a@.skip(i + 1));
            assert(b@.skip(i as int).skip(1) =~= b@.skip(i + 1));
        }
        if ca > cb {
            return true;
        }
        if ca < cb {
            return false;
        }
        i = i + 1;
    }
}

} // verus!

verus! {

/// Whether a market row is one of the given rows.
pub open spec fn one_of(a: HotAgg, input: Seq<HotAgg>) -> bool {
    exists|j: int| 0 <= j < input.len() && a == #[trigger] input[j]
}

/// Order merged markets by volume, largest first, and keep the first `limit`:
/// the response rows of the hot-markets view.
pub fn top_hot_markets(aggs: Vec<HotAgg>, limit: usize) -> (r: Vec<HotAgg>)
    ensures
        r@.len() == (if limit > aggs@.len() {
            aggs@.len()
        } else {
            limit as nat
        }),
        forall|x: int, y: int|
            0 <= x < y < r@.len() ==> r@[x].volume_micro >= r@[y].volume_micro,
        forall|x: int| 0 <= x < r@.len() ==> one_of(#[trigger] r@[x], aggs@),
{
    let ghost input = aggs@;
    let mut rest = aggs;
    let mut sorted: Vec<HotAgg> = Vec::new();
    proof {
        assert forall|x: int| 0 <= x < rest@.len() implies one_of(
            #[trigger] rest@[x],
            input,
        ) by {
            assert(rest@[x] == input[x]);
        }
    }
    while rest.len() > 0
        invariant
            rest@.len() + sorted@.len() == input.len(),
            forall|x: int, y: int|
                0 <= x < y < sorted@.len() ==> sorted@[x].volume_micro >= sorted@[y].volume_micro,
            forall|x: int, y: int|
                0 <= x < sorted@.len() && 0 <= y < rest@.len() ==> sorted@[x].volume_micro
                    >= rest@[y].volume_micro,
            forall|x: int| 0 <= x < sorted@.len() ==> one_of(#[trigger] sorted@[x], input),
            forall|x: int| 0 <= x < rest@.len() ==> one_of(#[trigger] rest@[x], input),
        decreases rest@.len(),
    {
        let rlen = rest.len();
        let mut max_idx: usize = 0;
        let mut t: usize = 1;
        while t < rlen
            invariant
                rlen == rest@.len(),
                rlen > 0,
                max_idx < rlen,
                t <= rlen,
                forall|y: int| 0 <= y < t ==> rest@[max_idx as int].volume_micro >= rest@[
                    y
                ].volume_micro,
            decreases rlen - t,
        {
            if rest[t].volume_micro > rest[max_idx].volume_micro {
                max_idx = t;
            }
            t = t + 1;
        }
        let ghost prerest = rest@;
        let picked = rest.remove(max_idx);
        sorted.push(picked);
        proof {
            assert forall|x: int| 0 <= x < rest@.len() implies one_of(
                #[trigger] rest@[x],
                input,
            ) by {
                let ox = if x < max_idx {
                    x
                } else {
                    x + 1
                };
                assert(rest@[x] == prerest[ox]);
                assert(one_of(prerest[ox], input));
            }
        }
    }
    let ghost full = sorted@;
    let mut out = sorted;
    out.truncate(limit);
    proof {
        assert forall|x: int| 0 <= x < out@.len() implies one_of(#[trigger] out@[x], input) by {
            assert(out@[x] == full[x]);
            assert(one_of(full[x], input));
        }
    }
    out
}

} // verus!

verus! {

/// One per-token smart-money row, already enriched with its market.
pub struct SmartRowIn {
    pub question: String,
    pub token_id: String,
    pub outcome: String,
    pub smart_trader_count: u64,
    pub long_count: u64,
    pub short_count: u64,
    pub long_exposure: String,
    pub short_exposure: String,
    pub avg_price: String,
}

/// One merged smart-money market.
pub struct SmartAgg {
    pub token_id: String,
    pub outcome: String,
    pub smart_trader_count: u64,
    pub long_count: u64,
    pub short_count: u64,
    pub long_exposure_micro: u128,
    pub short_exposure_micro: u128,
    pub avg_price: String,
}

/// Saturating `u64` sum of a per-row count over question `q`'s first `i` rows.
pub open spec fn smart_long_upto(rows: Seq<SmartRowIn>, q: Seq<char>, i: int) -> nat
    decreases i,
{
    if i <= 0 || i > rows.len() {
        0
    } else {
        smart_long_upto(rows, q, i - 1) + if rows[i - 1].question@ == q {
            rows[i - 1].long_count as nat
        } else {
            0
        }
    }
}

pub open spec fn smart_short_upto(rows: Seq<SmartRowIn>, q: Seq<char>, i: int) -> nat
    decreases i,
{
    if i <= 0 || i > rows.len() {
        0
    } else {
        smart_short_upto(rows, q, i - 1) + if rows[i - 1].question@ == q {
            rows[i - 1].short_count as nat
        } else {
            0
        }
    }
}

pub open spec fn smart_long_exp_upto(rows: Seq<SmartRowIn>, q: Seq<char>, i: int) -> nat
    decreases i,
{
    if i <= 0 || i > rows.len() {
        0
    } else {
        smart_long_exp_upto(rows, q, i - 1) + if rows[i - 1].question@ == q {
            display_micro_of(rows[i - 1].long_exposure@, u64::MAX as nat)
        } else {
            0
        }
    }
}

pub open spec fn smart_short_exp_upto(rows: Seq<SmartRowIn>, q: Seq<char>, i: int) -> nat
    decreases i,
{
    if i <= 0 || i > rows.len() {
        0
    } else {
        smart_short_exp_upto(rows, q, i - 1) + if rows[i - 1].question@ == q {
            display_micro_of(rows[i - 1].short_exposure@, u64::MAX as nat)
        } else {
            0
        }
    }
}

/// The largest per-side trader count among question `q`'s first `i` rows.
pub open spec fn smart_traders_upto(rows: Seq<SmartRowIn>, q: Seq<char>, i: int) -> nat
    decreases i,
{
    if i <= 0 || i > rows.len() {
        0
    } else {
        let rest = smart_traders_upto(rows, q, i - 1);
        if rows[i - 1].question@ == q && rows[i - 1].smart_trader_count as nat > rest {
            rows[i - 1].smart_trader_count as nat
        } else {
            rest
        }
    }
}

/// The position of question `q`'s first row among the first `i`.
pub open spec fn smart_first_upto(rows: Seq<SmartRowIn>, q: Seq<char>, i: int) -> int
    decreases i,
{
    if i <= 0 || i > rows.len() {
        -1
    } else {
        let rest = smart_first_upto(rows, q, i - 1);
        if rest >= 0 {
            rest
        } else if rows[i - 1].question@ == q {
            i - 1
        } else {
            -1
        }
    }
}

/// Merge smart-money rows into one aggregate per question: counts and
/// exposures sum over the siblings, the trader count keeps the larger side,
/// and the display fields come from the question's first row.
#[verifier::rlimit(100)]
#[verifier::spinoff_prover]
pub fn merge_smart_rows(rows: &Vec<SmartRowIn>) -> (r: AssocMap<SmartAgg>)
    requires
        rows@.len() <= 100_000,
    ensures
        r.wf(),
        forall|q: Seq<char>|
            #[trigger] r.spec_contains(q) <==> exists|j: int|
                0 <= j < rows@.len() && (#[trigger] rows@[j]).question@ == q,
        forall|q: Seq<char>|
            #[trigger] r.spec_contains(q) ==> {
                let a = r.spec_get(q);
                let n = rows@.len() as int;
                let f = smart_first_upto(rows@, q, n);
                &&& a.long_count as nat == (if smart_long_upto(rows@, q, n) > u64::MAX as nat {
                    u64::MAX as nat
                } else {
                    smart_long_upto(rows@, q, n)
                })
                &&& a.short_count as nat == (if smart_short_upto(rows@, q, n) > u64::MAX as nat {
                    u64::MAX as nat
                } else {
                    smart_short_upto(rows@, q, n)
                })
                &&& a.long_exposure_micro as nat == smart_long_exp_upto(rows@, q, n)
                &&& a.short_exposure_micro as nat == smart_short_exp_upto(rows@, q, n)
                &&& a.smart_trader_count as nat == smart_traders_upto(rows@, q, n)
                &&& 0 <= f < rows@.len()
                &&& a.token_id@ == rows@[f].token_id@
                &&& a.outcome@ == rows@[f].outcome@
                &&& a.avg_price@ == rows@[f].avg_price@
            },
{
    let n = rows.len();
    let mut merged: AssocMap<SmartAgg> = AssocMap::new();
    let mut i: usize = 0;
    while i < n
        invariant
            n == rows@.len(),
            n <= 100_000,
            i <= n,
            merged.wf(),
            forall|q: Seq<char>|
                #[trigger] merged.spec_contains(q) <==> exists|j: int|
                    0 <= j < i && (#[trigger] rows@[j]).question@ == q,
            forall|q: Seq<char>|
                #[trigger] merged.spec_contains(q) ==> {
                    let a = merged.spec_get(q);
                    let f = smart_first_upto(rows@, q, i as int);
                    &&& a.long_count as nat == (if smart_long_upto(rows@, q, i as int)
                        > u64::MAX as nat {
                        u64::MAX as nat
                    } else {
                        smart_long_upto(rows@, q, i as int)
                    })
                    &&& a.short_count as nat == (if smart_short_upto(rows@, q, i as int)
                        > u64::MAX as nat {
                        u64::MAX as nat
                    } else {
                        smart_short_upto(rows@, q, i as int)
                    })
                    &&& a.long_exposure_micro as nat == smart_long_exp_upto(rows@, q, i as int)
                    &&& a.short_exposure_micro as nat == smart_short_exp_upto(rows@, q, i as int)
                    &&& a.smart_trader_count as nat == smart_traders_upto(rows@, q, i as int)
                    &&& 0 <= f < rows@.len()
                    &&& a.token_id@ == rows@[f].token_id@
                    &&& a.outcome@ == rows@[f].outcome@
                    &&& a.avg_price@ == rows@[f].avg_price@
                },
        decreases n - i,
    {
        let row = &rows[i];
        let long_exp = crate::money::parse_display_micro(row.long_exposure.as_str()) as u128;
        let short_exp = crate::money::parse_display_micro(row.short_exposure.as_str()) as u128;
        let ghost pre = merged;
        let ghost q0 = rows@[i as int].question@;
        proof {
            lemma_smart_exp_bound(rows@, q0, i as int);
        }
        match merged.index_of(row.question.as_str()) {
            Some(at) => {
                let cur = merged.val_at(at);
                let ghost gcur = *cur;
                proof {
                    assert(merged.spec_contains(q0));
                    assert(merged.spec_get(q0) == gcur);
                    assert((i as nat) * (u64::MAX as nat) <= 100_000 * (u64::MAX as nat))
                        by (nonlinear_arith)
                        requires
                            i <= 100_000,
                    ;
                }
                let new_long = if cur.long_count > u64::MAX - row.long_count {
                    u64::MAX
                } else {
                    cur.long_count + row.long_count
                };
                let new_short = if cur.short_count > u64::MAX - row.short_count {
                    u64::MAX
                } else {
                    cur.short_count + row.short_count
                };
                let new_traders = if row.smart_trader_count > cur.smart_trader_count {
                    row.smart_trader_count
                } else {
                    cur.smart_trader_count
                };
                let updated = SmartAgg {
                    token_id: cur.token_id.clone(),
                    outcome: cur.outcome.clone(),
                    smart_trader_count: new_traders,
                    long_count: new_long,
                    short_count: new_short,
                    long_exposure_micro: cur.long_exposure_micro + long_exp,
                    short_exposure_micro: cur.short_exposure_micro + short_exp,
                    avg_price: cur.avg_price.clone(),
                };
                merged.set_val_at(at, updated);
                proof {
                    assert(key_index(merged.skeys(), q0) == at as int);
                }
            },
            None => {
                let fresh = SmartAgg {
                    token_id: row.token_id.clone(),
                    outcome: row.outcome.clone(),
                    smart_trader_count: row.smart_trader_count,
                    long_count: row.long_count,
                    short_count: row.short_count,
                    long_exposure_micro: long_exp,
                    short_exposure_micro: short_exp,
                    avg_price: row.avg_price.clone(),
                };
                merged.insert(row.question.clone(), fresh);
                proof {
                    assert(forall|j: int| 0 <= j < i ==> (#[trigger] rows@[j]).question@ != q0);
                    lemma_smart_empty(rows@, q0, i as int);
                }
            },
        }
        proof {
            assert forall|q: Seq<char>| #[trigger] merged.spec_contains(q) implies exists|j: int|
                0 <= j < i + 1 && (#[trigger] rows@[j]).question@ == q by {
                if pre.spec_contains(q) {
                    let j = choose|j: int| 0 <= j < i && (#[trigger] rows@[j]).question@ == q;
                    assert(0 <= j < i + 1 && rows@[j].question@ == q);
                } else {
                    if key_index(pre.skeys(), q0) >= 0 {
                        assert(merged.skeys() == pre.skeys());
                        assert(false);
                    } else {
                        crate::assoc::lemma_contains_push(pre.skeys(), q0, q);
                        assert(q == q0);
                        assert(rows@[i as int].question@ == q);
                    }
                }
            }
            assert forall|q: Seq<char>|
                (exists|j: int| 0 <= j < i + 1 && (#[trigger] rows@[j]).question@ == q) implies
                #[trigger] merged.spec_contains(q) by {
                let j = choose|j: int| 0 <= j < i + 1 && (#[trigger] rows@[j]).question@ == q;
                if j < i {
                    assert(pre.spec_contains(q));
                    if key_index(pre.skeys(), q0) >= 0 {
                        assert(merged.skeys() == pre.skeys());
                    } else {
                        crate::assoc::lemma_key_index_found(pre.skeys(), q, 0);
                        crate::assoc::lemma_key_index_push_preserves(pre.skeys(), q0, q, 0);
                    }
                } else {
                    assert(q == q0);
                }
            }
            assert forall|q: Seq<char>| #[trigger] merged.spec_contains(q) implies {
                let a = merged.spec_get(q);
                let f = smart_first_upto(rows@, q, i + 1);
                &&& a.long_count as nat == (if smart_long_upto(rows@, q, i + 1) > u64::MAX as nat {
                    u64::MAX as nat
                } else {
                    smart_long_upto(rows@, q, i + 1)
                })
                &&& a.short_count as nat == (if smart_short_upto(rows@, q, i + 1)
                    > u64::MAX as nat {
                    u64::MAX as nat
                } else {
                    smart_short_upto(rows@, q, i + 1)
                })
                &&& a.long_exposure_micro as nat == smart_long_exp_upto(rows@, q, i + 1)
                &&& a.short_exposure_micro as nat == smart_short_exp_upto(rows@, q, i + 1)
                &&& a.smart_trader_count as nat == smart_traders_upto(rows@, q, i + 1)
                &&& 0 <= f < rows@.len()
                &&& a.token_id@ == rows@[f].token_id@
                &&& a.outcome@ == rows@[f].outcome@
                &&& a.avg_price@ == rows@[f].avg_price@
            } by {
                if q != q0 {
                    assert(pre.spec_contains(q));
                    if key_index(pre.skeys(), q0) >= 0 {
                        crate::assoc::lemma_key_index_found(pre.skeys(), q, 0);
                        assert(merged.spec_get(q) == pre.spec_get(q));
                    } else {
                        crate::assoc::lemma_key_index_found(pre.skeys(), q, 0);
                        crate::assoc::lemma_key_index_push_preserves(pre.skeys(), q0, q, 0);
                        assert(merged.spec_get(q) == pre.spec_get(q));
                    }
                } else {
                    if key_index(pre.skeys(), q0) >= 0 {
                        crate::assoc::lemma_key_index_found(pre.skeys(), q0, 0);
                        assert(smart_first_upto(rows@, q0, i as int) == smart_first_upto(
                            rows@,
                            q0,
                            i + 1,
                        ));
                    }
                }
            }
        }
        i = i + 1;
    }
    merged
}

/// A question no prefix row carries has empty smart sums.
proof fn lemma_smart_empty(rows: Seq<SmartRowIn>, q: Seq<char>, i: int)
    requires
        0 <= i <= rows.len(),
        forall|j: int| 0 <= j < i ==> (#[trigger] rows[j]).question@ != q,
    ensures
        smart_long_upto(rows, q, i) == 0,
        smart_short_upto(rows, q, i) == 0,
        smart_long_exp_upto(rows, q, i) == 0,
        smart_short_exp_upto(rows, q, i) == 0,
        smart_traders_upto(rows, q, i) == 0,
        smart_first_upto(rows, q, i) == -1,
    decreases i,
{
    if i > 0 {
        lemma_smart_empty(rows, q, i - 1);
    }
}

/// Exposure sums stay within a 64-bit amount per row.
proof fn lemma_smart_exp_bound(rows: Seq<SmartRowIn>, q: Seq<char>, i: int)
    requires
        0 <= i <= rows.len(),
    ensures
        smart_long_exp_upto(rows, q, i) <= (i as nat) * (u64::MAX as nat),
        smart_short_exp_upto(rows, q, i) <= (i as nat) * (u64::MAX as nat),
    decreases i,
{
    if i > 0 {
        lemma_smart_exp_bound(rows, q, i - 1);
        assert(((i - 1) as nat) * (u64::MAX as nat) + (u64::MAX as nat) == (i as nat) * (
        u64::MAX as nat)) by (nonlinear_arith)
            requires
                i >= 1,
        ;
    }
}

} // verus!

verus! {

/// One per-trader, per-token copy-portfolio row, already enriched.
pub struct CopyRowIn {
    pub question: String,
    pub token_id: String,
    pub outcome: String,
    pub trader: String,
    pub net_tokens: String,
    pub avg_entry: String,
    pub latest_price: String,
    pub exposure: String,
    pub pnl: String,
}

/// One merged copy-portfolio position.
pub struct CopyAgg {
    pub token_id: String,
    pub outcome: String,
    pub latest_price: String,
    /// Distinct curated traders holding the market.
    pub traders: crate::assoc::AssocMap<bool>,
    pub long_count: u64,
    pub short_count: u64,
    pub exposure_micro: i128,
    pub pnl_micro: i128,
    /// Exposure-weighted average entry price, in micro-USDC.
    pub entry_micro: i128,
}

/// A row's exposure, clamped to a nonnegative price-scaled amount.
pub open spec fn copy_exposure_of(r: CopyRowIn) -> int {
    let v = crate::pnl::money_micro_of(r.exposure@);
    if v < 0 {
        0
    } else {
        v
    }
}

/// A row's entry price, clamped into the price band.
pub open spec fn copy_entry_of(r: CopyRowIn) -> int {
    let v = crate::pnl::money_micro_of(r.avg_entry@);
    if v < 0 {
        0
    } else if v > 100_000_000 {
        100_000_000
    } else {
        v
    }
}

pub open spec fn copy_exp_upto(rows: Seq<CopyRowIn>, q: Seq<char>, i: int) -> int
    decreases i,
{
    if i <= 0 || i > rows.len() {
        0
    } else {
        copy_exp_upto(rows, q, i - 1) + if rows[i - 1].question@ == q {
            copy_exposure_of(rows[i - 1])
        } else {
            0
        }
    }
}

pub open spec fn copy_pnl_upto(rows: Seq<CopyRowIn>, q: Seq<char>, i: int) -> int
    decreases i,
{
    if i <= 0 || i > rows.len() {
        0
    } else {
        copy_pnl_upto(rows, q, i - 1) + if rows[i - 1].question@ == q {
            crate::pnl::money_micro_of(rows[i - 1].pnl@)
        } else {
            0
        }
    }
}

/// Whether some row before `i` already put `(q, trader)` in the group.
pub open spec fn copy_seen(rows: Seq<CopyRowIn>, q: Seq<char>, trader: Seq<char>, i: int) -> bool {
    exists|j: int|
        0 <= j < i && (#[trigger] rows[j]).question@ == q && rows[j].trader@ == trader
}

/// Long holders of `q` among the first `i` rows: distinct traders whose first
/// row in the group is net long.
pub open spec fn copy_long_upto(rows: Seq<CopyRowIn>, q: Seq<char>, i: int) -> nat
    decreases i,
{
    if i <= 0 || i > rows.len() {
        0
    } else {
        copy_long_upto(rows, q, i - 1) + if rows[i - 1].question@ == q && !copy_seen(
            rows,
            q,
            rows[i - 1].trader@,
            i - 1,
        ) && crate::pnl::money_micro_of(rows[i - 1].net_tokens@) > 0 {
            1nat
        } else {
            0nat
        }
    }
}

pub open spec fn copy_short_upto(rows: Seq<CopyRowIn>, q: Seq<char>, i: int) -> nat
    decreases i,
{
    if i <= 0 || i > rows.len() {
        0
    } else {
        copy_short_upto(rows, q, i - 1) + if rows[i - 1].question@ == q && !copy_seen(
            rows,
            q,
            rows[i - 1].trader@,
            i - 1,
        ) && crate::pnl::money_micro_of(rows[i - 1].net_tokens@) <= 0 {
            1nat
        } else {
            0nat
        }
    }
}

/// The exposure-weighted entry of `q`'s first `i` rows: each new row folds in
/// at its exposure's weight; a zero-exposure total reads as zero.
pub open spec fn copy_entry_upto(rows: Seq<CopyRowIn>, q: Seq<char>, i: int) -> int
    decreases i,
{
    if i <= 0 || i > rows.len() {
        0
    } else if rows[i - 1].question@ != q {
        copy_entry_upto(rows, q, i - 1)
    } else if smartlike_first(rows, q, i - 1) {
        copy_entry_of(rows[i - 1])
    } else {
        let ex = copy_exp_upto(rows, q, i - 1);
        let e = copy_entry_upto(rows, q, i - 1);
        let exposure = copy_exposure_of(rows[i - 1]);
        let en = copy_entry_of(rows[i - 1]);
        let nt = ex + exposure;
        if nt > 0 {
            (ex * e + exposure * en) / nt
        } else {
            0
        }
    }
}

/// No row before `i` belongs to question `q`.
pub open spec fn smartlike_first(rows: Seq<CopyRowIn>, q: Seq<char>, i: int) -> bool {
    forall|j: int| 0 <= j < i ==> (#[trigger] rows[j]).question@ != q
}

/// Merge copy-portfolio rows into one aggregate per question: exposures and
/// PnL sum, the entry price is exposure-weighted, each distinct trader counts
/// once toward convergence, on the side of their first row, and the display
/// fields come from the question's first row.
#[verifier::rlimit(100)]
#[verifier::spinoff_prover]
pub fn merge_copy_rows(rows: &Vec<CopyRowIn>) -> (r: AssocMap<CopyAgg>)
    requires
        rows@.len() <= 100_000,
    ensures
        r.wf(),
        forall|q: Seq<char>|
            #[trigger] r.spec_contains(q) <==> exists|j: int|
                0 <= j < rows@.len() && (#[trigger] rows@[j]).question@ == q,
        forall|q: Seq<char>|
            #[trigger] r.spec_contains(q) ==> {
                let a = r.spec_get(q);
                let n = rows@.len() as int;
                &&& a.traders.wf()
                &&& (forall|t: Seq<char>|
                    #[trigger] a.traders.spec_contains(t) <==> copy_seen(rows@, q, t, n))
                &&& a.long_count as nat == copy_long_upto(rows@, q, n)
                &&& a.short_count as nat == copy_short_upto(rows@, q, n)
                &&& a.exposure_micro as int == copy_exp_upto(rows@, q, n)
                &&& a.pnl_micro as int == copy_pnl_upto(rows@, q, n)
                &&& a.entry_micro as int == copy_entry_upto(rows@, q, n)
            },
{
    let n = rows.len();
    let mut merged: AssocMap<CopyAgg> = AssocMap::new();
    let mut i: usize = 0;
    while i < n
        invariant
            n == rows@.len(),
            n <= 100_000,
            i <= n,
            merged.wf(),
            forall|q: Seq<char>|
                #[trigger] merged.spec_contains(q) <==> exists|j: int|
                    0 <= j < i && (#[trigger] rows@[j]).question@ == q,
            forall|q: Seq<char>|
                #[trigger] merged.spec_contains(q) ==> {
                    let a = merged.spec_get(q);
                    &&& a.traders.wf()
                    &&& (forall|t: Seq<char>|
                        #[trigger] a.traders.spec_contains(t) <==> copy_seen(rows@, q, t, i as int))
                    &&& a.long_count as nat == copy_long_upto(rows@, q, i as int)
                    &&& a.short_count as nat == copy_short_upto(rows@, q, i as int)
                    &&& a.exposure_micro as int == copy_exp_upto(rows@, q, i as int)
                    &&& a.pnl_micro as int == copy_pnl_upto(rows@, q, i as int)
                    &&& a.entry_micro as int == copy_entry_upto(rows@, q, i as int)
                    &&& 0 <= a.entry_micro <= 100_000_000
                    &&& 0 <= a.exposure_micro
                },
        decreases n - i,
    {
        let row = &rows[i];
        let exposure: i128 = {
            let v = crate::pnl::parse_money_micro(row.exposure.as_str());
            if v < 0 {
                0
            } else {
                v
            }
        };
        let entry: i128 = {
            let v = crate::pnl::parse_money_micro(row.avg_entry.as_str());
            if v < 0 {
                0
            } else if v > 100_000_000 {
                100_000_000
            } else {
                v
            }
        };
        let pnl = crate::pnl::parse_money_micro(row.pnl.as_str());
        let net = crate::pnl::parse_money_micro(row.net_tokens.as_str());
        let ghost pre = merged;
        let ghost q0 = rows@[i as int].question@;
        proof {
            lemma_copy_bounds(rows@, q0, i as int);
        }
        match merged.index_of(row.question.as_str()) {
            Some(at) => {
                let cur = merged.val_at(at);
                let ghost gcur = *cur;
                proof {
                    assert(merged.spec_contains(q0));
                    assert(merged.spec_get(q0) == gcur);
                    assert((i as int) * (u64::MAX as int) <= 100_000 * (u64::MAX as int))
                        by (nonlinear_arith)
                        requires
                            i <= 100_000,
                    ;
                    assert((i as int) * (u64::MAX as int) >= 0);
                }
                let is_new = !cur.traders.contains(row.trader.as_str());
                let mut traders = crate::authstore::clone_flags(&cur.traders);
                let ghost pret = traders;
                if is_new {
                    traders.insert(row_trader(row), true);
                    proof {
                        assert forall|t: Seq<char>|
                            #[trigger] traders.spec_contains(t) implies pret.spec_contains(t) || t
                            == rows@[i as int].trader@ by {
                            crate::assoc::lemma_contains_push(
                                pret.skeys(),
                                rows@[i as int].trader@,
                                t,
                            );
                        }
                        assert forall|t: Seq<char>|
                            pret.spec_contains(t) implies #[trigger] traders.spec_contains(t) by {
                            crate::assoc::lemma_key_index_found(pret.skeys(), t, 0);
                            crate::assoc::lemma_key_index_push_preserves(
                                pret.skeys(),
                                rows@[i as int].trader@,
                                t,
                                0,
                            );
                        }
                    }
                }
                proof {
                    assert forall|t: Seq<char>|
                        #[trigger] traders.spec_contains(t) <==> copy_seen(
                        rows@,
                        q0,
                        t,
                        i + 1,
                    ) by {
                        if traders.spec_contains(t) {
                            if pret.spec_contains(t) {
                                assert(copy_seen(rows@, q0, t, i as int));
                                let j = choose|j: int|
                                    0 <= j < i && (#[trigger] rows@[j]).question@ == q0 && rows@[
                                        j
                                    ].trader@ == t;
                                assert(rows@[j].question@ == q0 && rows@[j].trader@ == t);
                            } else {
                                assert(t == rows@[i as int].trader@);
                                assert(rows@[i as int].question@ == q0);
                            }
                        }
                        if copy_seen(rows@, q0, t, i + 1) {
                            let j = choose|j: int|
                                0 <= j < i + 1 && (#[trigger] rows@[j]).question@ == q0 && rows@[
                                    j
                                ].trader@ == t;
                            if j < i {
                                assert(copy_seen(rows@, q0, t, i as int));
                                assert(pret.spec_contains(t));
                            } else {
                                assert(t == rows@[i as int].trader@);
                                if !is_new {
                                    assert(pret.spec_contains(t));
                                }
                            }
                        }
                    }
                }
                let is_long = net > 0;
                proof {
                    lemma_copy_count_bound(rows@, q0, i as int);
                }
                let new_long = if is_new && is_long {
                    cur.long_count + 1
                } else {
                    cur.long_count
                };
                let new_short = if is_new && !is_long {
                    cur.short_count + 1
                } else {
                    cur.short_count
                };
                let new_exp = cur.exposure_micro + exposure;
                let new_entry: i128 = if new_exp > 0 {
                    proof {
                        assert(0 <= (gcur.exposure_micro as int) * (gcur.entry_micro as int) <= (
                        100_000 * (u64::MAX as int)) * 100_000_000) by (nonlinear_arith)
                            requires
                                0 <= gcur.exposure_micro as int <= 100_000 * (u64::MAX as int),
                                0 <= gcur.entry_micro <= 100_000_000,
                        ;
                        assert(0 <= (exposure as int) * (entry as int) <= (u64::MAX as int)
                            * 100_000_000) by (nonlinear_arith)
                            requires
                                0 <= exposure as int <= u64::MAX as int,
                                0 <= entry <= 100_000_000,
                        ;
                        assert((gcur.exposure_micro as int) * (gcur.entry_micro as int) + (
                        exposure as int) * (entry as int) <= ((gcur.exposure_micro as int) + (
                        exposure as int)) * 100_000_000) by (nonlinear_arith)
                            requires
                                0 <= gcur.exposure_micro as int,
                                0 <= exposure as int,
                                0 <= gcur.entry_micro <= 100_000_000,
                                0 <= entry <= 100_000_000,
                        ;
                        assert(((gcur.exposure_micro as int) * (gcur.entry_micro as int) + (
                        exposure as int) * (entry as int)) / ((gcur.exposure_micro as int) + (
                        exposure as int)) <= 100_000_000) by (nonlinear_arith)
                            requires
                                (gcur.exposure_micro as int) + (exposure as int) > 0,
                                (gcur.exposure_micro as int) * (gcur.entry_micro as int) + (
                                exposure as int) * (entry as int) <= ((gcur.exposure_micro as int)
                                    + (exposure as int)) * 100_000_000,
                                0 <= (gcur.exposure_micro as int) * (gcur.entry_micro as int) + (
                                exposure as int) * (entry as int),
                        ;
                    }
                    (cur.exposure_micro * cur.entry_micro + exposure * entry) / new_exp
                } else {
                    0
                };
                let updated = CopyAgg {
                    token_id: cur.token_id.clone(),
                    outcome: cur.outcome.clone(),
                    latest_price: cur.latest_price.clone(),
                    traders,
                    long_count: new_long,
                    short_count: new_short,
                    exposure_micro: new_exp,
                    pnl_micro: cur.pnl_micro + pnl,
                    entry_micro: new_entry,
                };
                merged.set_val_at(at, updated);
                proof {
                    assert(key_index(merged.skeys(), q0) == at as int);
                    assert(!smartlike_first(rows@, q0, i as int)) by {
                        let j = choose|j: int| 0 <= j < i && (#[trigger] rows@[j]).question@ == q0;
                        assert(rows@[j].question@ == q0);
                    }
                    assert(is_new == !copy_seen(rows@, q0, rows@[i as int].trader@, i as int)) by {
                        assert(gcur.traders.spec_contains(rows@[i as int].trader@) <==> copy_seen(
                            rows@,
                            q0,
                            rows@[i as int].trader@,
                            i as int,
                        ));
                    }
                    assert(merged.spec_get(q0).long_count as nat == copy_long_upto(
                        rows@,
                        q0,
                        i + 1,
                    ));
                    assert(merged.spec_get(q0).short_count as nat == copy_short_upto(
                        rows@,
                        q0,
                        i + 1,
                    ));
                    assert(merged.spec_get(q0).exposure_micro as int == copy_exp_upto(
                        rows@,
                        q0,
                        i + 1,
                    ));
                    assert(merged.spec_get(q0).pnl_micro as int == copy_pnl_upto(rows@, q0, i + 1));
                    assert(merged.spec_get(q0).entry_micro as int == copy_entry_upto(
                        rows@,
                        q0,
                        i + 1,
                    ));
                }
            },
            None => {
                let mut traders: AssocMap<bool> = AssocMap::new();
                traders.insert(row_trader(row), true);
                let is_long = net > 0;
                let fresh = CopyAgg {
                    token_id: row.token_id.clone(),
                    outcome: row.outcome.clone(),
                    latest_price: row.latest_price.clone(),
                    traders,
                    long_count: if is_long {
                        1
                    } else {
                        0
                    },
                    short_count: if is_long {
                        0
                    } else {
                        1
                    },
                    exposure_micro: exposure,
                    pnl_micro: pnl,
                    entry_micro: entry,
                };
                merged.insert(row.question.clone(), fresh);
                proof {
                    assert(forall|j: int| 0 <= j < i ==> (#[trigger] rows@[j]).question@ != q0);
                    lemma_copy_empty(rows@, q0, i as int);
                    assert(smartlike_first(rows@, q0, i as int));
                    assert forall|t: Seq<char>|
                        #[trigger] merged.spec_get(q0).traders.spec_contains(t) <==> copy_seen(
                        rows@,
                        q0,
                        t,
                        i + 1,
                    ) by {
                        if merged.spec_get(q0).traders.spec_contains(t) {
                            crate::assoc::lemma_contains_push(
                                Seq::<Seq<char>>::empty(),
                                rows@[i as int].trader@,
                                t,
                            );
                            assert(t == rows@[i as int].trader@);
                            assert(rows@[i as int].question@ == q0);
                        }
                        if copy_seen(rows@, q0, t, i + 1) {
                            let j = choose|j: int|
                                0 <= j < i + 1 && (#[trigger] rows@[j]).question@ == q0 && rows@[
                                    j
                                ].trader@ == t;
                            assert(j == i);
                        }
                    }
                }
            },
        }
        proof {
            assert forall|q: Seq<char>| #[trigger] merged.spec_contains(q) implies exists|j: int|
                0 <= j < i + 1 && (#[trigger] rows@[j]).question@ == q by {
                if pre.spec_contains(q) {
                    let j = choose|j: int| 0 <= j < i && (#[trigger] rows@[j]).question@ == q;
                    assert(0 <= j < i + 1 && rows@[j].question@ == q);
                } else {
                    if key_index(pre.skeys(), q0) >= 0 {
                        assert(merged.skeys() == pre.skeys());
                        assert(false);
                    } else {
                        crate::assoc::lemma_contains_push(pre.skeys(), q0, q);
                        assert(q == q0);
                        assert(rows@[i as int].question@ == q);
                    }
                }
            }
            assert forall|q: Seq<char>|
                (exists|j: int| 0 <= j < i + 1 && (#[trigger] rows@[j]).question@ == q) implies
                #[trigger] merged.spec_contains(q) by {
                let j = choose|j: int| 0 <= j < i + 1 && (#[trigger] rows@[j]).question@ == q;
                if j < i {
                    assert(pre.spec_contains(q));
                    if key_index(pre.skeys(), q0) >= 0 {
                        assert(merged.skeys() == pre.skeys());
                    } else {
                        crate::assoc::lemma_key_index_found(pre.skeys(), q, 0);
                        crate::assoc::lemma_key_index_push_preserves(pre.skeys(), q0, q, 0);
                    }
                } else {
                    assert(q == q0);
                }
            }
            assert forall|q: Seq<char>| #[trigger] merged.spec_contains(q) implies {
                let a = merged.spec_get(q);
                &&& a.traders.wf()
                &&& (forall|t: Seq<char>|
                    #[trigger] a.traders.spec_contains(t) <==> copy_seen(rows@, q, t, i + 1))
                &&& a.long_count as nat == copy_long_upto(rows@, q, i + 1)
                &&& a.short_count as nat == copy_short_upto(rows@, q, i + 1)
                &&& a.exposure_micro as int == copy_exp_upto(rows@, q, i + 1)
                &&& a.pnl_micro as int == copy_pnl_upto(rows@, q, i + 1)
                &&& a.entry_micro as int == copy_entry_upto(rows@, q, i + 1)
                &&& 0 <= a.entry_micro <= 100_000_000
                &&& 0 <= a.exposure_micro
            } by {
                if q != q0 {
                    assert(pre.spec_contains(q));
                    if key_index(pre.skeys(), q0) >= 0 {
                        crate::assoc::lemma_key_index_found(pre.skeys(), q, 0);
                        assert(merged.spec_get(q) == pre.spec_get(q));
                    } else {
                        crate::assoc::lemma_key_index_found(pre.skeys(), q, 0);
                        crate::assoc::lemma_key_index_push_preserves(pre.skeys(), q0, q, 0);
                        assert(merged.spec_get(q) == pre.spec_get(q));
                    }
                    assert forall|t: Seq<char>|
                        #[trigger] merged.spec_get(q).traders.spec_contains(t) <==> copy_seen(
                        rows@,
                        q,
                        t,
                        i + 1,
                    ) by {
                        if copy_seen(rows@, q, t, i + 1) {
                            let j = choose|j: int|
                                0 <= j < i + 1 && (#[trigger] rows@[j]).question@ == q && rows@[
                                    j
                                ].trader@ == t;
                            assert(j < i);
                            assert(copy_seen(rows@, q, t, i as int));
                        }
                        if merged.spec_get(q).traders.spec_contains(t) {
                            assert(copy_seen(rows@, q, t, i as int));
                            let j = choose|j: int|
                                0 <= j < i && (#[trigger] rows@[j]).question@ == q && rows@[
                                    j
                                ].trader@ == t;
                            assert(0 <= j < i + 1 && rows@[j].question@ == q && rows@[j].trader@
                                == t);
                        }
                    }
                } else {
                    if key_index(pre.skeys(), q0) >= 0 {
                        crate::assoc::lemma_key_index_found(pre.skeys(), q0, 0);
                    }
                }
            }
        }
        i = i + 1;
    }
    merged
}

fn row_trader(r: &CopyRowIn) -> (s: String)
    ensures
        s@ == r.trader@,
{
    r.trader.clone()
}

/// A question no prefix row carries has empty copy sums.
proof fn lemma_copy_empty(rows: Seq<CopyRowIn>, q: Seq<char>, i: int)
    requires
        0 <= i <= rows.len(),
        forall|j: int| 0 <= j < i ==> (#[trigger] rows[j]).question@ != q,
    ensures
        copy_exp_upto(rows, q, i) == 0,
        copy_pnl_upto(rows, q, i) == 0,
        copy_long_upto(rows, q, i) == 0,
        copy_short_upto(rows, q, i) == 0,
        copy_entry_upto(rows, q, i) == 0,
    decreases i,
{
    if i > 0 {
        lemma_copy_empty(rows, q, i - 1);
    }
}

/// Distinct-holder counts never pass the row count.
proof fn lemma_copy_count_bound(rows: Seq<CopyRowIn>, q: Seq<char>, i: int)
    requires
        0 <= i <= rows.len(),
    ensures
        copy_long_upto(rows, q, i) <= i,
        copy_short_upto(rows, q, i) <= i,
    decreases i,
{
    if i > 0 {
        lemma_copy_count_bound(rows, q, i - 1);
    }
}

/// Copy sums stay within a 64-bit amount per row, and exposures nonnegative.
proof fn lemma_copy_bounds(rows: Seq<CopyRowIn>, q: Seq<char>, i: int)
    requires
        0 <= i <= rows.len(),
    ensures
        0 <= copy_exp_upto(rows, q, i) <= (i as int) * (u64::MAX as int),
        -(i as int) * (u64::MAX as int) <= copy_pnl_upto(rows, q, i) <= (i as int) * (
        u64::MAX as int),
    decreases i,
{
    if i > 0 {
        lemma_copy_bounds(rows, q, i - 1);
        assert(((i - 1) as int) * (u64::MAX as int) + (u64::MAX as int) == (i as int) * (
        u64::MAX as int)) by (nonlinear_arith)
            requires
                i >= 1,
        ;
    }
}

} // verus!
