//! Behavioral labels, from a trader's position set.
//!
//! All thresholds are exact integer tests: percentages compare as cross
//! products, and the z-score bound `z > 1.5` becomes
//! `2·correct > settled` and `4·(2·correct − settled)² > 9·settled`,
//! which is the same inequality squared.

use vstd::prelude::*;

use crate::pnl::money_micro_of;

verus! {

/// A trader position row, fields as the analytics store returns them.
pub struct ProfilePositionRow {
    pub asset_id: String,
    pub pnl: String,
    pub total_volume: String,
    pub trade_count: u64,
    pub net_tokens: String,
    pub first_ts: String,
    pub last_ts: String,
    pub resolved_price: String,
    pub on_chain_resolved: u8,
    pub latest_price: String,
    pub buy_usdc: String,
    pub sell_usdc: String,
    pub buy_amount: String,
}

#[derive(Clone, Copy, Debug, PartialEq, Eq, Structural)]
pub enum BehavioralLabel {
    Sharp,
    Specialist,
    Whale,
    Degen,
    MarketMaker,
    Bot,
    Casual,
    Contrarian,
}

/// A position is de-facto settled: resolved on chain, or its price pinned to
/// an end. An unreadable price reads as one half — pinned to neither end.
pub open spec fn row_settled(p: ProfilePositionRow) -> bool {
    let lp = crate::pnl::money_micro_or(p.latest_price@, 500_000);
    p.on_chain_resolved == 1 || lp >= 950_000 || lp <= 50_000
}

/// The price a settled position pays out at; an unreadable settlement price
/// reads as one half, which wins for neither side.
pub open spec fn row_effective_price(p: ProfilePositionRow) -> int {
    let lp = crate::pnl::money_micro_or(p.latest_price@, 500_000);
    if p.on_chain_resolved == 1 {
        crate::pnl::money_micro_or(p.resolved_price@, 500_000)
    } else if lp >= 950_000 {
        1_000_000
    } else {
        0
    }
}

/// A settled position held to the end (nonzero net) that paid out.
pub open spec fn row_win(p: ProfilePositionRow) -> bool {
    let net = money_micro_of(p.net_tokens@);
    let eff = row_effective_price(p);
    &&& row_settled(p)
    &&& net != 0
    &&& ((net > 0 && eff > 500_000) || (net < 0 && eff < 500_000))
}

/// A settled, held position.
pub open spec fn row_scored(p: ProfilePositionRow) -> bool {
    row_settled(p) && money_micro_of(p.net_tokens@) != 0
}

/// A contrarian entry: a held long bought below thirty cents that settled.
pub open spec fn row_contrarian(p: ProfilePositionRow) -> bool {
    let net = money_micro_of(p.net_tokens@);
    let ba = money_micro_of(p.buy_amount@);
    let bu = money_micro_of(p.buy_usdc@);
    &&& net > 0
    &&& row_settled(p)
    &&& ba > 0
    &&& bu * 10 < ba * 3
}

pub open spec fn row_contrarian_correct(p: ProfilePositionRow) -> bool {
    row_contrarian(p) && row_effective_price(p) > 500_000
}

pub open spec fn count_upto(ps: Seq<ProfilePositionRow>, pred: spec_fn(ProfilePositionRow) -> bool, i: int) -> nat
    decreases i,
{
    if i <= 0 || i > ps.len() {
        0
    } else {
        count_upto(ps, pred, i - 1) + if pred(ps[i - 1]) {
            1nat
        } else {
            0nat
        }
    }
}

/// How many of the first `i` rows satisfy `pred` and sit in category
/// `dominant`.
pub open spec fn cat_count_upto(
    ps: Seq<ProfilePositionRow>,
    cats: Seq<Seq<char>>,
    dominant: Seq<char>,
    pred: spec_fn(ProfilePositionRow) -> bool,
    i: int,
) -> nat
    decreases i,
{
    if i <= 0 || i > ps.len() || i > cats.len() {
        0
    } else {
        cat_count_upto(ps, cats, dominant, pred, i - 1) + if pred(ps[i - 1]) && cats[i - 1]
            == dominant {
            1nat
        } else {
            0nat
        }
    }
}

pub open spec fn money_sum_upto(ps: Seq<ProfilePositionRow>, f: spec_fn(ProfilePositionRow) -> int, i: int) -> int
    decreases i,
{
    if i <= 0 || i > ps.len() {
        0
    } else {
        money_sum_upto(ps, f, i - 1) + f(ps[i - 1])
    }
}

/// The exact aggregates the labels are decided from.
pub struct LabelStats {
    /// Settled, held positions.
    pub settled_count: u64,
    /// Of those, the wins.
    pub correct_count: u64,
    pub total_volume_micro: i128,
    pub total_buy_micro: i128,
    pub total_sell_micro: i128,
    pub contrarian_trades: u64,
    pub contrarian_correct: u64,
    /// Settled, held positions inside the dominant category, and their wins.
    pub cat_settled: u64,
    pub cat_correct: u64,
    /// Settled positions inside the dominant category, held or not.
    pub cat_settled_all: u64,
}

pub open spec fn stats_of(
    ps: Seq<ProfilePositionRow>,
    cats: Seq<Seq<char>>,
    dominant: Seq<char>,
    s: LabelStats,
) -> bool {
    let n = ps.len() as int;
    &&& s.settled_count as nat == count_upto(ps, |p: ProfilePositionRow| row_scored(p), n)
    &&& s.correct_count as nat == count_upto(ps, |p: ProfilePositionRow| row_win(p), n)
    &&& s.total_volume_micro as int == money_sum_upto(
        ps,
        |p: ProfilePositionRow| money_micro_of(p.total_volume@),
        n,
    )
    &&& s.total_buy_micro as int == money_sum_upto(
        ps,
        |p: ProfilePositionRow| money_micro_of(p.buy_usdc@),
        n,
    )
    &&& s.total_sell_micro as int == money_sum_upto(
        ps,
        |p: ProfilePositionRow| money_micro_of(p.sell_usdc@),
        n,
    )
    &&& s.contrarian_trades as nat == count_upto(ps, |p: ProfilePositionRow| row_contrarian(p), n)
    &&& s.contrarian_correct as nat == count_upto(
        ps,
        |p: ProfilePositionRow| row_contrarian_correct(p),
        n,
    )
    &&& s.cat_settled as nat == cat_count_upto(
        ps,
        cats,
        dominant,
        |p: ProfilePositionRow| row_scored(p),
        n,
    )
    &&& s.cat_correct as nat == cat_count_upto(
        ps,
        cats,
        dominant,
        |p: ProfilePositionRow| row_win(p),
        n,
    )
    &&& s.cat_settled_all as nat == cat_count_upto(
        ps,
        cats,
        dominant,
        |p: ProfilePositionRow| row_settled(p),
        n,
    )
}

/// One pass over the positions, computing every aggregate the labels need.
/// `cats` runs parallel to `positions`: each row's market category.
pub fn compute_position_stats(
    positions: &Vec<ProfilePositionRow>,
    cats: &Vec<String>,
    dominant: &str,
) -> (s: LabelStats)
    requires
        positions@.len() == cats@.len(),
        positions@.len() <= 100_000,
    ensures
        stats_of(positions@, cats.deep_view(), dominant@, s),
        s.settled_count <= positions@.len(),
        s.correct_count <= s.settled_count,
        s.cat_settled <= s.settled_count,
        s.cat_correct <= s.cat_settled,
        s.contrarian_trades <= positions@.len(),
        s.contrarian_correct <= s.contrarian_trades,
{
    let n = positions.len();
    let mut settled: u64 = 0;
    let mut correct: u64 = 0;
    let mut vol: i128 = 0;
    let mut buy: i128 = 0;
    let mut sell: i128 = 0;
    let mut ct: u64 = 0;
    let mut cc: u64 = 0;
    let mut cs: u64 = 0;
    let mut ccat: u64 = 0;
    let mut csall: u64 = 0;
    let mut i: usize = 0;
    while i < n
        invariant
            n == positions@.len(),
            n == cats@.len(),
            n <= 100_000,
            i <= n,
            settled as nat == count_upto(positions@, |p: ProfilePositionRow| row_scored(p), i as int),
            correct as nat == count_upto(positions@, |p: ProfilePositionRow| row_win(p), i as int),
            vol as int == money_sum_upto(
                positions@,
                |p: ProfilePositionRow| money_micro_of(p.total_volume@),
                i as int,
            ),
            buy as int == money_sum_upto(
                positions@,
                |p: ProfilePositionRow| money_micro_of(p.buy_usdc@),
                i as int,
            ),
            sell as int == money_sum_upto(
                positions@,
                |p: ProfilePositionRow| money_micro_of(p.sell_usdc@),
                i as int,
            ),
            ct as nat == count_upto(positions@, |p: ProfilePositionRow| row_contrarian(p), i as int),
            cc as nat == count_upto(
                positions@,
                |p: ProfilePositionRow| row_contrarian_correct(p),
                i as int,
            ),
            correct <= settled <= i,
            cc <= ct <= i,
            ccat <= cs <= settled,
            csall <= i,
            cats.deep_view() == cats@.map_values(|c: String| c@),
            cs as nat == cat_count_upto(
                positions@,
                cats.deep_view(),
                dominant@,
                |p: ProfilePositionRow| row_scored(p),
                i as int,
            ),
            ccat as nat == cat_count_upto(
                positions@,
                cats.deep_view(),
                dominant@,
                |p: ProfilePositionRow| row_win(p),
                i as int,
            ),
            csall as nat == cat_count_upto(
                positions@,
                cats.deep_view(),
                dominant@,
                |p: ProfilePositionRow| row_settled(p),
                i as int,
            ),
            -(i as i128) * (u64::MAX as i128) <= vol <= (i as i128) * (u64::MAX as i128),
            -(i as i128) * (u64::MAX as i128) <= buy <= (i as i128) * (u64::MAX as i128),
            -(i as i128) * (u64::MAX as i128) <= sell <= (i as i128) * (u64::MAX as i128),
        decreases n - i,
    {
        let p = &positions[i];
        let lp = match crate::pnl::parse_money_checked(p.latest_price.as_str()) {
            Some(x) => x,
            None => 500_000,
        };
        let net = crate::pnl::parse_money_micro(p.net_tokens.as_str());
        let is_settled = p.on_chain_resolved == 1 || lp >= 950_000 || lp <= 50_000;
        let eff: i128 = if p.on_chain_resolved == 1 {
            match crate::pnl::parse_money_checked(p.resolved_price.as_str()) {
                Some(x) => x,
                None => 500_000,
            }
        } else if lp >= 950_000 {
            1_000_000
        } else {
            0
        };
        let scored = is_settled && net != 0;
        let win = scored && ((net > 0 && eff > 500_000) || (net < 0 && eff < 500_000));
        let in_cat = crate::text::str_eq(cats[i].as_str(), dominant);
        if scored {
            settled = settled + 1;
            if in_cat {
                cs = cs + 1;
            }
        }
        if win {
            correct = correct + 1;
            if in_cat {
                ccat = ccat + 1;
            }
        }
        if is_settled && in_cat {
            csall = csall + 1;
        }
        let ba = crate::pnl::parse_money_micro(p.buy_amount.as_str());
        let bu = crate::pnl::parse_money_micro(p.buy_usdc.as_str());
        let contrarian = net > 0 && is_settled && ba > 0 && bu * 10 < ba * 3;
        if contrarian {
            ct = ct + 1;
            if eff > 500_000 {
                cc = cc + 1;
            }
        }
        proof {
            assert((i as i128) as int * (u64::MAX as int) + (u64::MAX as int) == ((i + 1) as int)
                * (u64::MAX as int)) by (nonlinear_arith);
            assert(((i + 1) as int) * (u64::MAX as int) <= 100_000 * (u64::MAX as int))
                by (nonlinear_arith)
                requires
                    i + 1 <= 100_000,
            ;
            assert((i as int) * (u64::MAX as int) >= 0);
            assert(row_scored(positions@[i as int]) == scored);
            assert(row_win(positions@[i as int]) == win);
            assert(row_contrarian(positions@[i as int]) == contrarian);
            assert(row_contrarian_correct(positions@[i as int]) == (contrarian && eff > 500_000));
            assert(cats.deep_view()[i as int] == cats@[i as int]@);
            assert(row_settled(positions@[i as int]) == is_settled);
        }
        vol = vol + crate::pnl::parse_money_micro(p.total_volume.as_str());
        buy = buy + bu;
        sell = sell + crate::pnl::parse_money_micro(p.sell_usdc.as_str());
        i = i + 1;
    }
    LabelStats {
        settled_count: settled,
        correct_count: correct,
        total_volume_micro: vol,
        total_buy_micro: buy,
        total_sell_micro: sell,
        contrarian_trades: ct,
        contrarian_correct: cc,
        cat_settled: cs,
        cat_correct: ccat,
        cat_settled_all: csall,
    }
}

/// Sharp: at least ten settled positions, a sixty-percent win rate, and a
/// statistically significant edge (`z > 1.5`, tested squared).
pub open spec fn sharp_of(s: LabelStats) -> bool {
    &&& s.settled_count >= 10
    &&& s.correct_count * 10 >= s.settled_count * 6
    &&& 2 * s.correct_count > s.settled_count
    &&& 4 * (2 * s.correct_count - s.settled_count) * (2 * s.correct_count - s.settled_count) > 9
        * s.settled_count
}

/// Specialist: concentrated in one real category, with an edge there.
pub open spec fn specialist_of(
    s: LabelStats,
    dominant_vol_micro: int,
    dominant_real: bool,
    total_trade_count: int,
) -> bool {
    let concentrated = if s.cat_settled_all >= 5 {
        dominant_vol_micro * 10 > s.total_volume_micro * 7 && s.cat_correct * 100 > s.cat_settled
            * 55
    } else {
        dominant_vol_micro * 10 >= s.total_volume_micro * 8 && s.total_volume_micro
            > 10_000_000_000 && total_trade_count >= 10
    };
    concentrated && dominant_real
}

/// Whale: six figures of volume, five-figure average positions, few markets.
pub open spec fn whale_of(s: LabelStats, unique_markets: int) -> bool {
    &&& s.total_volume_micro > 100_000_000_000
    &&& s.total_volume_micro > 5_000_000_000 * unique_markets
    &&& unique_markets < 30
}

/// Degen: plenty of settled positions and volume, no edge.
pub open spec fn degen_of(s: LabelStats) -> bool {
    &&& s.correct_count * 10 < s.settled_count * 4
    &&& s.settled_count >= 10
    &&& s.total_volume_micro > 5_000_000_000
}

/// Market maker: balanced buys and sells, busy, across many markets.
pub open spec fn market_maker_of(s: LabelStats, total_trade_count: int, unique_markets: int) -> bool {
    let mn = if s.total_buy_micro < s.total_sell_micro {
        s.total_buy_micro as int
    } else {
        s.total_sell_micro as int
    };
    let mx = if s.total_buy_micro < s.total_sell_micro {
        s.total_sell_micro as int
    } else {
        s.total_buy_micro as int
    };
    &&& mx > 0
    &&& mn * 10 > mx * 6
    &&& total_trade_count >= 50
    &&& unique_markets >= 10
}

/// Bot: trade frequency per market only a machine keeps up.
pub open spec fn bot_of(total_trade_count: int, unique_markets: int) -> bool {
    total_trade_count >= 200 && total_trade_count >= 15 * unique_markets
}

/// Contrarian: at least five cheap entries that settled, mostly correctly.
pub open spec fn contrarian_label_of(s: LabelStats) -> bool {
    s.contrarian_trades >= 5 && s.contrarian_correct * 10 >= s.contrarian_trades * 6
}

/// Casual: few trades or little volume.
pub open spec fn casual_of(s: LabelStats, total_trade_count: int) -> bool {
    total_trade_count < 10 || s.total_volume_micro < 500_000_000
}

/// Decide every label from the aggregates. Labels are not mutually
/// exclusive; each is present exactly when its predicate holds.
#[verifier::rlimit(100)]
#[verifier::spinoff_prover]
pub fn compute_labels(
    s: &LabelStats,
    dominant_vol_micro: i128,
    dominant_real: bool,
    total_trade_count: u64,
    unique_markets: u64,
) -> (r: Vec<BehavioralLabel>)
    requires
        -0x1_0000_0000_0000_0000_0000i128 <= s.total_volume_micro
            <= 0x1_0000_0000_0000_0000_0000i128,
        -0x1_0000_0000_0000_0000_0000i128 <= s.total_buy_micro <= 0x1_0000_0000_0000_0000_0000i128,
        -0x1_0000_0000_0000_0000_0000i128 <= s.total_sell_micro
            <= 0x1_0000_0000_0000_0000_0000i128,
        -0x1_0000_0000_0000_0000_0000i128 <= dominant_vol_micro
            <= 0x1_0000_0000_0000_0000_0000i128,
        s.settled_count <= 0xFFFF_FFFF,
        s.correct_count <= s.settled_count,
        s.cat_correct <= s.cat_settled <= 0xFFFF_FFFF,
        s.contrarian_correct <= s.contrarian_trades <= 0xFFFF_FFFF,
    ensures
        r@.contains(BehavioralLabel::Sharp) <==> sharp_of(*s),
        r@.contains(BehavioralLabel::Specialist) <==> specialist_of(
            *s,
            dominant_vol_micro as int,
            dominant_real,
            total_trade_count as int,
        ),
        r@.contains(BehavioralLabel::Whale) <==> whale_of(*s, unique_markets as int),
        r@.contains(BehavioralLabel::Degen) <==> degen_of(*s),
        r@.contains(BehavioralLabel::MarketMaker) <==> market_maker_of(
            *s,
            total_trade_count as int,
            unique_markets as int,
        ),
        r@.contains(BehavioralLabel::Bot) <==> bot_of(
            total_trade_count as int,
            unique_markets as int,
        ),
        r@.contains(BehavioralLabel::Contrarian) <==> contrarian_label_of(*s),
        r@.contains(BehavioralLabel::Casual) <==> casual_of(*s, total_trade_count as int),
{
    let sc = s.settled_count;
    let cor = s.correct_count;
    let z_ok: bool = if 2 * (cor as u128) > sc as u128 {
        let d = 2 * (cor as u128) - (sc as u128);
        proof {
            assert(d <= 0x2_0000_0000u128);
            assert(4 * d * d <= 4 * 0x2_0000_0000u128 * 0x2_0000_0000u128) by (nonlinear_arith)
                requires
                    d <= 0x2_0000_0000u128,
            ;
        }
        4 * d * d > 9 * (sc as u128)
    } else {
        false
    };
    let sharp = sc >= 10 && cor * 10 >= sc * 6 && z_ok;
    let concentrated = if s.cat_settled_all >= 5 {
        dominant_vol_micro * 10 > s.total_volume_micro * 7 && s.cat_correct * 100 > s.cat_settled
            * 55
    } else {
        dominant_vol_micro * 10 >= s.total_volume_micro * 8 && s.total_volume_micro
            > 10_000_000_000 && total_trade_count >= 10
    };
    let specialist = concentrated && dominant_real;
    let whale = s.total_volume_micro > 100_000_000_000 && s.total_volume_micro > 5_000_000_000 * (
    unique_markets as i128) && unique_markets < 30;
    let degen = cor * 10 < sc * 4 && sc >= 10 && s.total_volume_micro > 5_000_000_000;
    let mn = if s.total_buy_micro < s.total_sell_micro {
        s.total_buy_micro
    } else {
        s.total_sell_micro
    };
    let mx = if s.total_buy_micro < s.total_sell_micro {
        s.total_sell_micro
    } else {
        s.total_buy_micro
    };
    let maker = mx > 0 && mn * 10 > mx * 6 && total_trade_count >= 50 && unique_markets >= 10;
    let bot = total_trade_count >= 200 && total_trade_count as u128 >= 15 * (
    unique_markets as u128);
    let contrarian = s.contrarian_trades >= 5 && s.contrarian_correct * 10 >= s.contrarian_trades
        * 6;
    let casual = total_trade_count < 10 || s.total_volume_micro < 500_000_000;
    proof {
        assert(sharp == sharp_of(*s)) by {
            if 2 * (cor as int) > sc as int {
                let d = 2 * (cor as int) - sc as int;
                assert(4 * d * d == 4 * ((2 * (cor as u128) - (sc as u128)) as int) * ((2 * (
                cor as u128) - (sc as u128)) as int));
            }
        }
    }
    let mut r: Vec<BehavioralLabel> = Vec::new();
    let ghost before_sharp = r@;
    if sharp {
        r.push(BehavioralLabel::Sharp);
    }
    proof {
        if sharp {
            lemma_label_push_same(before_sharp, BehavioralLabel::Sharp);
            lemma_label_push_other(before_sharp, BehavioralLabel::Sharp, BehavioralLabel::Specialist);
            lemma_label_push_other(before_sharp, BehavioralLabel::Sharp, BehavioralLabel::Whale);
            lemma_label_push_other(before_sharp, BehavioralLabel::Sharp, BehavioralLabel::Degen);
            lemma_label_push_other(before_sharp, BehavioralLabel::Sharp, BehavioralLabel::MarketMaker);
            lemma_label_push_other(before_sharp, BehavioralLabel::Sharp, BehavioralLabel::Bot);
            lemma_label_push_other(before_sharp, BehavioralLabel::Sharp, BehavioralLabel::Contrarian);
            lemma_label_push_other(before_sharp, BehavioralLabel::Sharp, BehavioralLabel::Casual);
        } else {
            assert(r@ == before_sharp);
        }
    }
    let ghost before_specialist = r@;
    if specialist {
        r.push(BehavioralLabel::Specialist);
    }
    proof {
        if specialist {
            lemma_label_push_same(before_specialist, BehavioralLabel::Specialist);
            lemma_label_push_other(before_specialist, BehavioralLabel::Specialist, BehavioralLabel::Sharp);
            lemma_label_push_other(before_specialist, BehavioralLabel::Specialist, BehavioralLabel::Whale);
            lemma_label_push_other(before_specialist, BehavioralLabel::Specialist, BehavioralLabel::Degen);
            lemma_label_push_other(before_specialist, BehavioralLabel::Specialist, BehavioralLabel::MarketMaker);
            lemma_label_push_other(before_specialist, BehavioralLabel::Specialist, BehavioralLabel::Bot);
            lemma_label_push_other(before_specialist, BehavioralLabel::Specialist, BehavioralLabel::Contrarian);
            lemma_label_push_other(before_specialist, BehavioralLabel::Specialist, BehavioralLabel::Casual);
        } else {
            assert(r@ == before_specialist);
        }
    }
    let ghost before_whale = r@;
    if whale {
        r.push(BehavioralLabel::Whale);
    }
    proof {
        if whale {
            lemma_label_push_same(before_whale, BehavioralLabel::Whale);
            lemma_label_push_other(before_whale, BehavioralLabel::Whale, BehavioralLabel::Sharp);
            lemma_label_push_other(before_whale, BehavioralLabel::Whale, BehavioralLabel::Specialist);
            lemma_label_push_other(before_whale, BehavioralLabel::Whale, BehavioralLabel::Degen);
            lemma_label_push_other(before_whale, BehavioralLabel::Whale, BehavioralLabel::MarketMaker);
            lemma_label_push_other(before_whale, BehavioralLabel::Whale, BehavioralLabel::Bot);
            lemma_label_push_other(before_whale, BehavioralLabel::Whale, BehavioralLabel::Contrarian);
            lemma_label_push_other(before_whale, BehavioralLabel::Whale, BehavioralLabel::Casual);
        } else {
            assert(r@ == before_whale);
        }
    }
    let ghost before_degen = r@;
    if degen {
        r.push(BehavioralLabel::Degen);
    }
    proof {
        if degen {
            lemma_label_push_same(before_degen, BehavioralLabel::Degen);
            lemma_label_push_other(before_degen, BehavioralLabel::Degen, BehavioralLabel::Sharp);
            lemma_label_push_other(before_degen, BehavioralLabel::Degen, BehavioralLabel::Specialist);
            lemma_label_push_other(before_degen, BehavioralLabel::Degen, BehavioralLabel::Whale);
            lemma_label_push_other(before_degen, BehavioralLabel::Degen, BehavioralLabel::MarketMaker);
            lemma_label_push_other(before_degen, BehavioralLabel::Degen, BehavioralLabel::Bot);
            lemma_label_push_other(before_degen, BehavioralLabel::Degen, BehavioralLabel::Contrarian);
            lemma_label_push_other(before_degen, BehavioralLabel::Degen, BehavioralLabel::Casual);
        } else {
            assert(r@ == before_degen);
        }
    }
    let ghost before_maker = r@;
    if maker {
        r.push(BehavioralLabel::MarketMaker);
    }
    proof {
        if maker {
            lemma_label_push_same(before_maker, BehavioralLabel::MarketMaker);
            lemma_label_push_other(before_maker, BehavioralLabel::MarketMaker, BehavioralLabel::Sharp);
            lemma_label_push_other(before_maker, BehavioralLabel::MarketMaker, BehavioralLabel::Specialist);
            lemma_label_push_other(before_maker, BehavioralLabel::MarketMaker, BehavioralLabel::Whale);
            lemma_label_push_other(before_maker, BehavioralLabel::MarketMaker, BehavioralLabel::Degen);
            lemma_label_push_other(before_maker, BehavioralLabel::MarketMaker, BehavioralLabel::Bot);
            lemma_label_push_other(before_maker, BehavioralLabel::MarketMaker, BehavioralLabel::Contrarian);
            lemma_label_push_other(before_maker, BehavioralLabel::MarketMaker, BehavioralLabel::Casual);
        } else {
            assert(r@ == before_maker);
        }
    }
    let ghost before_bot = r@;
    if bot {
        r.push(BehavioralLabel::Bot);
    }
    proof {
        if bot {
            lemma_label_push_same(before_bot, BehavioralLabel::Bot);
            lemma_label_push_other(before_bot, BehavioralLabel::Bot, BehavioralLabel::Sharp);
            lemma_label_push_other(before_bot, BehavioralLabel::Bot, BehavioralLabel::Specialist);
            lemma_label_push_other(before_bot, BehavioralLabel::Bot, BehavioralLabel::Whale);
            lemma_label_push_other(before_bot, BehavioralLabel::Bot, BehavioralLabel::Degen);
            lemma_label_push_other(before_bot, BehavioralLabel::Bot, BehavioralLabel::MarketMaker);
            lemma_label_push_other(before_bot, BehavioralLabel::Bot, BehavioralLabel::Contrarian);
            lemma_label_push_other(before_bot, BehavioralLabel::Bot, BehavioralLabel::Casual);
        } else {
            assert(r@ == before_bot);
        }
    }
    let ghost before_contrarian = r@;
    if contrarian {
        r.push(BehavioralLabel::Contrarian);
    }
    proof {
        if contrarian {
            lemma_label_push_same(before_contrarian, BehavioralLabel::Contrarian);
            lemma_label_push_other(before_contrarian, BehavioralLabel::Contrarian, BehavioralLabel::Sharp);
            lemma_label_push_other(before_contrarian, BehavioralLabel::Contrarian, BehavioralLabel::Specialist);
            lemma_label_push_other(before_contrarian, BehavioralLabel::Contrarian, BehavioralLabel::Whale);
            lemma_label_push_other(before_contrarian, BehavioralLabel::Contrarian, BehavioralLabel::Degen);
            lemma_label_push_other(before_contrarian, BehavioralLabel::Contrarian, BehavioralLabel::MarketMaker);
            lemma_label_push_other(before_contrarian, BehavioralLabel::Contrarian, BehavioralLabel::Bot);
            lemma_label_push_other(before_contrarian, BehavioralLabel::Contrarian, BehavioralLabel::Casual);
        } else {
            assert(r@ == before_contrarian);
        }
    }
    let ghost before_casual = r@;
    if casual {
        r.push(BehavioralLabel::Casual);
    }
    proof {
        if casual {
            lemma_label_push_same(before_casual, BehavioralLabel::Casual);
            lemma_label_push_other(before_casual, BehavioralLabel::Casual, BehavioralLabel::Sharp);
            lemma_label_push_other(before_casual, BehavioralLabel::Casual, BehavioralLabel::Specialist);
            lemma_label_push_other(before_casual, BehavioralLabel::Casual, BehavioralLabel::Whale);
            lemma_label_push_other(before_casual, BehavioralLabel::Casual, BehavioralLabel::Degen);
            lemma_label_push_other(before_casual, BehavioralLabel::Casual, BehavioralLabel::MarketMaker);
            lemma_label_push_other(before_casual, BehavioralLabel::Casual, BehavioralLabel::Bot);
            lemma_label_push_other(before_casual, BehavioralLabel::Casual, BehavioralLabel::Contrarian);
        } else {
            assert(r@ == before_casual);
        }
    }
    r
}

/// A pushed label is in the sequence.
proof fn lemma_label_push_same(s: Seq<BehavioralLabel>, x: BehavioralLabel)
    ensures
        s.push(x).contains(x),
{
    assert(s.push(x)[s.len() as int] == x);
}

/// Pushing one label leaves every other label's membership unchanged.
proof fn lemma_label_push_other(s: Seq<BehavioralLabel>, x: BehavioralLabel, y: BehavioralLabel)
    requires
        x != y,
    ensures
        s.push(x).contains(y) == s.contains(y),
{
    if s.contains(y) {
        let j = choose|j: int| 0 <= j < s.len() && s[j] == y;
        assert(s.push(x)[j] == y);
    }
    if s.push(x).contains(y) {
        let j = choose|j: int| 0 <= j < s.push(x).len() && s.push(x)[j] == y;
        if j < s.len() {
            assert(s[j] == y);
        }
    }
}

} // verus!


verus! {

/// The first position carrying the largest positive PnL among the first `i`,
/// or `-1`; the biggest win.
pub open spec fn best_win_upto(ps: Seq<ProfilePositionRow>, i: int) -> int
    decreases i,
{
    if i <= 0 || i > ps.len() {
        -1
    } else {
        let prev = best_win_upto(ps, i - 1);
        let pnl = money_micro_of(ps[i - 1].pnl@);
        if pnl > 0 && (prev < 0 || pnl > money_micro_of(ps[prev].pnl@)) {
            i - 1
        } else {
            prev
        }
    }
}

/// The first position carrying the most negative PnL among the first `i`,
/// or `-1`; the biggest loss.
pub open spec fn best_loss_upto(ps: Seq<ProfilePositionRow>, i: int) -> int
    decreases i,
{
    if i <= 0 || i > ps.len() {
        -1
    } else {
        let prev = best_loss_upto(ps, i - 1);
        let pnl = money_micro_of(ps[i - 1].pnl@);
        if pnl < 0 && (prev < 0 || pnl < money_micro_of(ps[prev].pnl@)) {
            i - 1
        } else {
            prev
        }
    }
}

/// Find the biggest win and the biggest loss of a position set: the first
/// position of the largest positive PnL, and the first of the most negative.
pub fn biggest_positions(positions: &Vec<ProfilePositionRow>) -> (r: (Option<usize>, Option<usize>))
    ensures
        ({
            let w = best_win_upto(positions@, positions@.len() as int);
            match r.0 {
                Some(x) => w == x as int && x < positions@.len(),
                None => w == -1,
            }
        }),
        ({
            let l = best_loss_upto(positions@, positions@.len() as int);
            match r.1 {
                Some(x) => l == x as int && x < positions@.len(),
                None => l == -1,
            }
        }),
{
    let n = positions.len();
    let mut win: Option<usize> = None;
    let mut win_pnl: i128 = 0;
    let mut loss: Option<usize> = None;
    let mut loss_pnl: i128 = 0;
    let mut i: usize = 0;
    while i < n
        invariant
            n == positions@.len(),
            i <= n,
            ({
                let w = best_win_upto(positions@, i as int);
                match win {
                    Some(x) => w == x as int && x < n && win_pnl as int == money_micro_of(
                        positions@[x as int].pnl@,
                    ),
                    None => w == -1,
                }
            }),
            ({
                let l = best_loss_upto(positions@, i as int);
                match loss {
                    Some(x) => l == x as int && x < n && loss_pnl as int == money_micro_of(
                        positions@[x as int].pnl@,
                    ),
                    None => l == -1,
                }
            }),
        decreases n - i,
    {
        let pnl = crate::pnl::parse_money_micro(positions[i].pnl.as_str());
        if pnl > 0 && (win.is_none() || pnl > win_pnl) {
            win = Some(i);
            win_pnl = pnl;
        }
        if pnl < 0 && (loss.is_none() || pnl < loss_pnl) {
            loss = Some(i);
            loss_pnl = pnl;
        }
        i = i + 1;
    }
    (win, loss)
}

/// One category's aggregates in a trader's profile.
pub struct CatAgg {
    pub volume_micro: i128,
    pub trade_count: u64,
    pub pnl_micro: i128,
}

/// Signed volume of the first `i` rows in category `c`.
pub open spec fn cat_vol_upto(
    ps: Seq<ProfilePositionRow>,
    cats: Seq<Seq<char>>,
    c: Seq<char>,
    i: int,
) -> int
    decreases i,
{
    if i <= 0 || i > ps.len() || i > cats.len() {
        0
    } else {
        cat_vol_upto(ps, cats, c, i - 1) + if cats[i - 1] == c {
            money_micro_of(ps[i - 1].total_volume@)
        } else {
            0
        }
    }
}

/// Signed PnL of the first `i` rows in category `c`.
pub open spec fn cat_pnl_upto(
    ps: Seq<ProfilePositionRow>,
    cats: Seq<Seq<char>>,
    c: Seq<char>,
    i: int,
) -> int
    decreases i,
{
    if i <= 0 || i > ps.len() || i > cats.len() {
        0
    } else {
        cat_pnl_upto(ps, cats, c, i - 1) + if cats[i - 1] == c {
            money_micro_of(ps[i - 1].pnl@)
        } else {
            0
        }
    }
}

/// Trade count of the first `i` rows in category `c`.
pub open spec fn cat_trades_upto(
    ps: Seq<ProfilePositionRow>,
    cats: Seq<Seq<char>>,
    c: Seq<char>,
    i: int,
) -> nat
    decreases i,
{
    if i <= 0 || i > ps.len() || i > cats.len() {
        0
    } else {
        cat_trades_upto(ps, cats, c, i - 1) + if cats[i - 1] == c {
            ps[i - 1].trade_count as nat
        } else {
            0
        }
    }
}

/// Group a trader's positions by market category: per category, the exact
/// volume, trade-count (saturating) and PnL sums. `cats` runs parallel to
/// `positions`.
#[verifier::rlimit(100)]
#[verifier::spinoff_prover]
pub fn category_breakdown(positions: &Vec<ProfilePositionRow>, cats: &Vec<String>) -> (r: crate::assoc::AssocMap<CatAgg>)
    requires
        positions@.len() == cats@.len(),
        positions@.len() <= 100_000,
    ensures
        r.wf(),
        forall|c: Seq<char>|
            #[trigger] r.spec_contains(c) <==> exists|j: int|
                0 <= j < cats@.len() && (#[trigger] cats@[j])@ == c,
        forall|c: Seq<char>|
            #[trigger] r.spec_contains(c) ==> {
                let a = r.spec_get(c);
                let n = positions@.len() as int;
                &&& a.volume_micro as int == cat_vol_upto(positions@, cats.deep_view(), c, n)
                &&& a.pnl_micro as int == cat_pnl_upto(positions@, cats.deep_view(), c, n)
                &&& a.trade_count as nat == (if cat_trades_upto(positions@, cats.deep_view(), c, n)
                    > u64::MAX as nat {
                    u64::MAX as nat
                } else {
                    cat_trades_upto(positions@, cats.deep_view(), c, n)
                })
            },
{
    let n = positions.len();
    let mut merged: crate::assoc::AssocMap<CatAgg> = crate::assoc::AssocMap::new();
    let mut i: usize = 0;
    while i < n
        invariant
            n == positions@.len(),
            n == cats@.len(),
            n <= 100_000,
            i <= n,
            merged.wf(),
            cats.deep_view() == cats@.map_values(|c: String| c@),
            forall|c: Seq<char>|
                #[trigger] merged.spec_contains(c) <==> exists|j: int|
                    0 <= j < i && (#[trigger] cats@[j])@ == c,
            forall|c: Seq<char>|
                #[trigger] merged.spec_contains(c) ==> {
                    let a = merged.spec_get(c);
                    &&& a.volume_micro as int == cat_vol_upto(
                        positions@,
                        cats.deep_view(),
                        c,
                        i as int,
                    )
                    &&& a.pnl_micro as int == cat_pnl_upto(
                        positions@,
                        cats.deep_view(),
                        c,
                        i as int,
                    )
                    &&& a.trade_count as nat == (if cat_trades_upto(
                        positions@,
                        cats.deep_view(),
                        c,
                        i as int,
                    ) > u64::MAX as nat {
                        u64::MAX as nat
                    } else {
                        cat_trades_upto(positions@, cats.deep_view(), c, i as int)
                    })
                },
        decreases n - i,
    {
        let vol = crate::pnl::parse_money_micro(positions[i].total_volume.as_str());
        let pnl = crate::pnl::parse_money_micro(positions[i].pnl.as_str());
        let tc = positions[i].trade_count;
        let ghost pre = merged;
        let ghost c0 = cats@[i as int]@;
        proof {
            assert(cats.deep_view()[i as int] == c0);
            lemma_cat_sum_bound(positions@, cats.deep_view(), c0, i as int);
        }
        match merged.index_of(cats[i].as_str()) {
            Some(at) => {
                let cur = merged.val_at(at);
                let ghost gcur = *cur;
                proof {
                    assert(merged.spec_contains(c0));
                    assert(merged.spec_get(c0) == gcur);
                    assert((i as int) * (u64::MAX as int) <= 100_000 * (u64::MAX as int))
                        by (nonlinear_arith)
                        requires
                            i <= 100_000,
                    ;
                    assert((i as int) * (u64::MAX as int) >= 0);
                }
                let new_tc = if cur.trade_count > u64::MAX - tc {
                    u64::MAX
                } else {
                    cur.trade_count + tc
                };
                let updated = CatAgg {
                    volume_micro: cur.volume_micro + vol,
                    trade_count: new_tc,
                    pnl_micro: cur.pnl_micro + pnl,
                };
                merged.set_val_at(at, updated);
                proof {
                    assert(crate::assoc::key_index(merged.skeys(), c0) == at as int);
                }
            },
            None => {
                let fresh = CatAgg { volume_micro: vol, trade_count: tc, pnl_micro: pnl };
                merged.insert(cats[i].clone(), fresh);
                proof {
                    assert(forall|j: int| 0 <= j < i ==> (#[trigger] cats@[j])@ != c0);
                    lemma_cat_empty(positions@, cats.deep_view(), c0, i as int);
                }
            },
        }
        proof {
            assert forall|c: Seq<char>| #[trigger] merged.spec_contains(c) implies exists|j: int|
                0 <= j < i + 1 && (#[trigger] cats@[j])@ == c by {
                if pre.spec_contains(c) {
                    let j = choose|j: int| 0 <= j < i && (#[trigger] cats@[j])@ == c;
                    assert(0 <= j < i + 1 && cats@[j]@ == c);
                } else {
                    if crate::assoc::key_index(pre.skeys(), c0) >= 0 {
                        assert(merged.skeys() == pre.skeys());
                        assert(false);
                    } else {
                        crate::assoc::lemma_contains_push(pre.skeys(), c0, c);
                        assert(c == c0);
                        assert(cats@[i as int]@ == c);
                    }
                }
            }
            assert forall|c: Seq<char>|
                (exists|j: int| 0 <= j < i + 1 && (#[trigger] cats@[j])@ == c) implies
                #[trigger] merged.spec_contains(c) by {
                let j = choose|j: int| 0 <= j < i + 1 && (#[trigger] cats@[j])@ == c;
                if j < i {
                    assert(pre.spec_contains(c));
                    if crate::assoc::key_index(pre.skeys(), c0) >= 0 {
                        assert(merged.skeys() == pre.skeys());
                    } else {
                        crate::assoc::lemma_key_index_found(pre.skeys(), c, 0);
                        crate::assoc::lemma_key_index_push_preserves(pre.skeys(), c0, c, 0);
                    }
                } else {
                    assert(c == c0);
                }
            }
            assert forall|c: Seq<char>| #[trigger] merged.spec_contains(c) implies {
                let a = merged.spec_get(c);
                &&& a.volume_micro as int == cat_vol_upto(positions@, cats.deep_view(), c, i + 1)
                &&& a.pnl_micro as int == cat_pnl_upto(positions@, cats.deep_view(), c, i + 1)
                &&& a.trade_count as nat == (if cat_trades_upto(
                    positions@,
                    cats.deep_view(),
                    c,
                    i + 1,
                ) > u64::MAX as nat {
                    u64::MAX as nat
                } else {
                    cat_trades_upto(positions@, cats.deep_view(), c, i + 1)
                })
            } by {
                if c != c0 {
                    assert(pre.spec_contains(c));
                    if crate::assoc::key_index(pre.skeys(), c0) >= 0 {
                        crate::assoc::lemma_key_index_found(pre.skeys(), c, 0);
                        assert(merged.spec_get(c) == pre.spec_get(c));
                    } else {
                        crate::assoc::lemma_key_index_found(pre.skeys(), c, 0);
                        crate::assoc::lemma_key_index_push_preserves(pre.skeys(), c0, c, 0);
                        assert(merged.spec_get(c) == pre.spec_get(c));
                    }
                } else {
                    if crate::assoc::key_index(pre.skeys(), c0) >= 0 {
                        crate::assoc::lemma_key_index_found(pre.skeys(), c0, 0);
                    }
                }
            }
        }
        i = i + 1;
    }
    merged
}

/// A category no prefix row carries has empty sums.
proof fn lemma_cat_empty(ps: Seq<ProfilePositionRow>, cats: Seq<Seq<char>>, c: Seq<char>, i: int)
    requires
        0 <= i <= ps.len(),
        i <= cats.len(),
        forall|j: int| 0 <= j < i ==> cats[j] != c,
    ensures
        cat_vol_upto(ps, cats, c, i) == 0,
        cat_pnl_upto(ps, cats, c, i) == 0,
        cat_trades_upto(ps, cats, c, i) == 0,
    decreases i,
{
    if i > 0 {
        lemma_cat_empty(ps, cats, c, i - 1);
    }
}

/// Category sums stay within a 64-bit amount per row.
proof fn lemma_cat_sum_bound(ps: Seq<ProfilePositionRow>, cats: Seq<Seq<char>>, c: Seq<char>, i: int)
    requires
        0 <= i <= ps.len(),
        i <= cats.len(),
    ensures
        -(i as int) * (u64::MAX as int) <= cat_vol_upto(ps, cats, c, i) <= (i as int) * (
        u64::MAX as int),
        -(i as int) * (u64::MAX as int) <= cat_pnl_upto(ps, cats, c, i) <= (i as int) * (
        u64::MAX as int),
    decreases i,
{
    if i > 0 {
        lemma_cat_sum_bound(ps, cats, c, i - 1);
        assert(((i - 1) as int) * (u64::MAX as int) + (u64::MAX as int) == (i as int) * (
        u64::MAX as int)) by (nonlinear_arith)
            requires
                i >= 1,
        ;
        assert(-(u64::MAX as int) <= money_micro_of(ps[i - 1].total_volume@) <= u64::MAX as int)
            by {
            lemma_money_bounded(ps[i - 1].total_volume@);
        }
        assert(-(u64::MAX as int) <= money_micro_of(ps[i - 1].pnl@) <= u64::MAX as int) by {
            lemma_money_bounded(ps[i - 1].pnl@);
        }
    }
}

/// Every readable amount fits a 64-bit magnitude; unreadable ones read zero.
proof fn lemma_money_bounded(s: Seq<char>)
    ensures
        -(u64::MAX as int) <= money_micro_of(s) <= u64::MAX as int,
{
}

/// The category of the largest volume share: the first index carrying the
/// maximum volume, or `None` on an empty breakdown.
pub fn dominant_category(breakdown: &crate::assoc::AssocMap<CatAgg>) -> (r: Option<usize>)
    requires
        breakdown.wf(),
    ensures
        match r {
            Some(x) => x < breakdown.spec_len() && (forall|y: int|
                0 <= y < breakdown.svals().len() ==> breakdown.svals()[x as int].volume_micro
                    >= (#[trigger] breakdown.svals()[y]).volume_micro) && (forall|y: int|
                0 <= y < x ==> (#[trigger] breakdown.svals()[y]).volume_micro < breakdown.svals()[
                    x as int
                ].volume_micro),
            None => breakdown.spec_len() == 0,
        },
{
    let n = breakdown.len();
    if n == 0 {
        return None;
    }
    let mut best: usize = 0;
    let mut i: usize = 1;
    while i < n
        invariant
            breakdown.wf(),
            n == breakdown.spec_len(),
            n > 0,
            best < i <= n || (best == 0 && i <= n),
            best < n,
            forall|y: int|
                0 <= y < i ==> breakdown.svals()[best as int].volume_micro
                    >= (#[trigger] breakdown.svals()[y]).volume_micro,
            forall|y: int|
                0 <= y < best ==> (#[trigger] breakdown.svals()[y]).volume_micro
                    < breakdown.svals()[best as int].volume_micro,
        decreases n - i,
    {
        if breakdown.val_at(i).volume_micro > breakdown.val_at(best).volume_micro {
            best = i;
        }
        i = i + 1;
    }
    Some(best)
}

} // verus!

verus! {

/// A batch row without its trader column: the per-trader position row.
pub open spec fn strip_trader(r: crate::types::BatchPositionRow) -> ProfilePositionRow {
    ProfilePositionRow {
        asset_id: r.asset_id,
        pnl: r.pnl,
        total_volume: r.total_volume,
        trade_count: r.trade_count,
        net_tokens: r.net_tokens,
        first_ts: r.first_ts,
        last_ts: r.last_ts,
        resolved_price: r.resolved_price,
        on_chain_resolved: r.on_chain_resolved,
        latest_price: r.latest_price,
        buy_usdc: r.buy_usdc,
        sell_usdc: r.sell_usdc,
        buy_amount: r.buy_amount,
    }
}

/// The positions of trader `t` (lowercased) among the first `i` batch rows,
/// in order.
pub open spec fn batch_group_upto(
    rows: Seq<crate::types::BatchPositionRow>,
    t: Seq<char>,
    i: int,
) -> Seq<ProfilePositionRow>
    decreases i,
{
    if i <= 0 || i > rows.len() {
        Seq::empty()
    } else {
        let rest = batch_group_upto(rows, t, i - 1);
        if crate::text::lower_of(rows[i - 1].trader@) == t {
            rest.push(strip_trader(rows[i - 1]))
        } else {
            rest
        }
    }
}

/// Group batch rows by lowercased trader: one group per trader, holding
/// exactly that trader's position rows in arrival order.
pub fn group_batch_rows(rows: &Vec<crate::types::BatchPositionRow>) -> (r: crate::assoc::AssocMap<
    Vec<ProfilePositionRow>,
>)
    ensures
        r.wf(),
        forall|t: Seq<char>|
            #[trigger] r.spec_contains(t) <==> exists|j: int|
                0 <= j < rows@.len() && crate::text::lower_of(
                    (#[trigger] rows@[j]).trader@,
                ) == t,
        forall|t: Seq<char>|
            #[trigger] r.spec_contains(t) ==> r.spec_get(t)@ == batch_group_upto(
                rows@,
                t,
                rows@.len() as int,
            ),
{
    let n = rows.len();
    let mut merged: crate::assoc::AssocMap<Vec<ProfilePositionRow>> =
        crate::assoc::AssocMap::new();
    let mut i: usize = 0;
    while i < n
        invariant
            n == rows@.len(),
            i <= n,
            merged.wf(),
            forall|t: Seq<char>|
                #[trigger] merged.spec_contains(t) <==> exists|j: int|
                    0 <= j < i && crate::text::lower_of((#[trigger] rows@[j]).trader@) == t,
            forall|t: Seq<char>|
                #[trigger] merged.spec_contains(t) ==> merged.spec_get(t)@ == batch_group_upto(
                    rows@,
                    t,
                    i as int,
                ),
        decreases n - i,
    {
        let row = &rows[i];
        let key = crate::text::to_lower(row.trader.as_str());
        let ghost pre = merged;
        let ghost t0 = crate::text::lower_of(rows@[i as int].trader@);
        let converted = ProfilePositionRow {
            asset_id: row.asset_id.clone(),
            pnl: row.pnl.clone(),
            total_volume: row.total_volume.clone(),
            trade_count: row.trade_count,
            net_tokens: row.net_tokens.clone(),
            first_ts: row.first_ts.clone(),
            last_ts: row.last_ts.clone(),
            resolved_price: row.resolved_price.clone(),
            on_chain_resolved: row.on_chain_resolved,
            latest_price: row.latest_price.clone(),
            buy_usdc: row.buy_usdc.clone(),
            sell_usdc: row.sell_usdc.clone(),
            buy_amount: row.buy_amount.clone(),
        };
        proof {
            assert(converted == strip_trader(rows@[i as int]));
        }
        match merged.index_of(key.as_str()) {
            Some(at) => {
                proof {
                    assert(merged.spec_contains(t0));
                    assert(merged.spec_get(t0) == merged.svals()[at as int]);
                    assert(merged.spec_get(t0)@ == batch_group_upto(rows@, t0, i as int));
                }
                merged.push_at(at, converted);
                proof {
                    assert(crate::assoc::key_index(merged.skeys(), t0) == at as int);
                    assert(merged.svals()[at as int]@ =~= batch_group_upto(rows@, t0, i as int).push(
                        strip_trader(rows@[i as int]),
                    ));
                    assert(merged.spec_get(t0)@ =~= batch_group_upto(rows@, t0, i + 1));
                }
            },
            None => {
                let mut v: Vec<ProfilePositionRow> = Vec::new();
                v.push(converted);
                merged.insert(key, v);
                proof {
                    assert(forall|j: int|
                        0 <= j < i ==> crate::text::lower_of((#[trigger] rows@[j]).trader@) != t0);
                    lemma_batch_group_empty(rows@, t0, i as int);
                    assert(merged.spec_get(t0)@ =~= batch_group_upto(rows@, t0, i + 1));
                }
            },
        }
        proof {
            assert forall|t: Seq<char>| #[trigger] merged.spec_contains(t) implies exists|j: int|
                0 <= j < i + 1 && crate::text::lower_of((#[trigger] rows@[j]).trader@) == t by {
                if pre.spec_contains(t) {
                    let j = choose|j: int|
                        0 <= j < i && crate::text::lower_of((#[trigger] rows@[j]).trader@) == t;
                    assert(0 <= j < i + 1 && crate::text::lower_of(rows@[j].trader@) == t);
                } else {
                    if crate::assoc::key_index(pre.skeys(), t0) >= 0 {
                        assert(merged.skeys() == pre.skeys());
                        assert(false);
                    } else {
                        crate::assoc::lemma_contains_push(pre.skeys(), t0, t);
                        assert(t == t0);
                        assert(crate::text::lower_of(rows@[i as int].trader@) == t);
                    }
                }
            }
            assert forall|t: Seq<char>|
                (exists|j: int|
                    0 <= j < i + 1 && crate::text::lower_of((#[trigger] rows@[j]).trader@)
                        == t) implies #[trigger] merged.spec_contains(t) by {
                let j = choose|j: int|
                    0 <= j < i + 1 && crate::text::lower_of((#[trigger] rows@[j]).trader@) == t;
                if j < i {
                    assert(pre.spec_contains(t));
                    if crate::assoc::key_index(pre.skeys(), t0) >= 0 {
                        assert(merged.skeys() == pre.skeys());
                    } else {
                        crate::assoc::lemma_key_index_found(pre.skeys(), t, 0);
                        crate::assoc::lemma_key_index_push_preserves(pre.skeys(), t0, t, 0);
                    }
                } else {
                    assert(t == t0);
                }
            }
            assert forall|t: Seq<char>| #[trigger] merged.spec_contains(t) implies
                merged.spec_get(t)@ == batch_group_upto(rows@, t, i + 1) by {
                if t != t0 {
                    assert(pre.spec_contains(t));
                    if crate::assoc::key_index(pre.skeys(), t0) >= 0 {
                        crate::assoc::lemma_key_index_found(pre.skeys(), t, 0);
                        assert(merged.spec_get(t) == pre.spec_get(t));
                    } else {
                        crate::assoc::lemma_key_index_found(pre.skeys(), t, 0);
                        crate::assoc::lemma_key_index_push_preserves(pre.skeys(), t0, t, 0);
                        assert(merged.spec_get(t) == pre.spec_get(t));
                    }
                }
            }
        }
        i = i + 1;
    }
    merged
}

/// A trader no prefix row names has an empty group.
proof fn lemma_batch_group_empty(
    rows: Seq<crate::types::BatchPositionRow>,
    t: Seq<char>,
    i: int,
)
    requires
        0 <= i <= rows.len(),
        forall|j: int| 0 <= j < i ==> crate::text::lower_of((#[trigger] rows[j]).trader@) != t,
    ensures
        batch_group_upto(rows, t, i) == Seq::<ProfilePositionRow>::empty(),
    decreases i,
{
    if i > 0 {
        lemma_batch_group_empty(rows, t, i - 1);
    }
}

} // verus!
