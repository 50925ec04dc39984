//! Condition resolutions: settlement prices from payout vectors, cache
//! matching by condition identifier, catalog-response verification, and the
//! derived table of resolved prices.

use vstd::prelude::*;

use crate::assoc::AssocMap;
use crate::fills::{Alert, TxInfo};
use crate::market::MarketInfo;
use crate::numstr::{all_digits, dec_val, parse_dec_capped};
use crate::text::{condition_id_eq, condition_ids_match};

verus! {

/// A payout numerator string read as a number; `None` when malformed or huge.
pub open spec fn numerator_of(s: Seq<char>) -> Option<nat> {
    if s.len() > 0 && all_digits(s) && dec_val(s) <= 0xFFFF_FFFF_FFFF_FFFF {
        Some(dec_val(s))
    } else {
        None
    }
}

/// The readable numerators of a payout vector, malformed entries dropped.
pub open spec fn parsed_numerators(nums: Seq<Seq<char>>) -> Seq<nat>
    decreases nums.len(),
{
    if nums.len() == 0 {
        Seq::empty()
    } else {
        let rest = parsed_numerators(nums.drop_last());
        match numerator_of(nums.last()) {
            Some(v) => rest.push(v),
            None => rest,
        }
    }
}

/// Sum of a numerator sequence.
pub open spec fn numerator_sum(ns: Seq<nat>) -> nat
    decreases ns.len(),
{
    if ns.len() == 0 {
        0
    } else {
        numerator_sum(ns.drop_last()) + ns.last()
    }
}

/// The settlement price, in micro-USDC, of the outcome at `idx`: its
/// numerator over the vector's sum, rounded to six decimals. `None` when the
/// sum is zero or the index is out of range.
pub open spec fn resolved_price_of(nums: Seq<Seq<char>>, idx: int) -> Option<nat> {
    let ns = parsed_numerators(nums);
    let total = numerator_sum(ns);
    if total == 0 || idx < 0 || idx >= ns.len() {
        None
    } else {
        Some((2 * ns[idx] * 1_000_000 + total) / (2 * total))
    }
}

/// Reads the payout numerators, dropping unreadable entries.
pub fn parse_numerators(nums: &Vec<String>) -> (r: Vec<u64>)
    ensures
        r@.map_values(|x: u64| x as nat) == parsed_numerators(nums.deep_view()),
        r@.len() <= nums@.len(),
{
    let ghost nd = nums.deep_view();
    let n = nums.len();
    let mut out: Vec<u64> = Vec::new();
    let mut i: usize = 0;
    while i < n
        invariant
            n == nums@.len(),
            nd == nums.deep_view(),
            i <= n,
            out@.len() <= i,
            out@.map_values(|x: u64| x as nat) == parsed_numerators(nd.subrange(0, i as int)),
        decreases n - i,
    {
        proof {
            assert(nd.subrange(0, i + 1).drop_last() =~= nd.subrange(0, i as int));
            assert(nd.subrange(0, i + 1).last() == nd[i as int]);
            assert(nd[i as int] == nums@[i as int]@);
        }
        let v = crate::digest::str_to_chars(nums[i].as_str());
        match parse_dec_capped(&v, 0, v.len(), 0xFFFF_FFFF_FFFF_FFFF) {
            Some(x) => {
                proof {
                    assert(v@.subrange(0, v@.len() as int) =~= v@);
                }
                out.push(x as u64);
                proof {
                    assert(out@.map_values(|x2: u64| x2 as nat) =~= parsed_numerators(
                        nd.subrange(0, i + 1),
                    ));
                }
            },
            None => {
                proof {
                    assert(v@.subrange(0, v@.len() as int) =~= v@);
                    assert(numerator_of(nd[i as int]) is None);
                }
            },
        }
        i = i + 1;
    }
    proof {
        assert(nd.subrange(0, n as int) =~= nd);
    }
    out
}

/// Compute the settlement price of the outcome at `idx` from a payout vector:
/// numerator over sum at six decimals. Vectors summing to zero resolve
/// nothing.
pub fn resolved_price_micro(nums: &Vec<String>, idx: usize) -> (r: Option<u64>)
    requires
        nums@.len() <= 1000,
    ensures
        match r {
            Some(p) => resolved_price_of(nums.deep_view(), idx as int) == Some(p as nat),
            None => resolved_price_of(nums.deep_view(), idx as int) is None,
        },
{
    let ns = parse_numerators(nums);
    let ghost gns = parsed_numerators(nums.deep_view());
    let n = ns.len();
    let mut total: u128 = 0;
    let mut i: usize = 0;
    while i < n
        invariant
            n == ns@.len(),
            gns == ns@.map_values(|x: u64| x as nat),
            i <= n,
            total == numerator_sum(gns.subrange(0, i as int)),
            total <= (i as nat) * 0xFFFF_FFFF_FFFF_FFFFnat,
        decreases n - i,
    {
        proof {
            assert(gns.subrange(0, i + 1).drop_last() =~= gns.subrange(0, i as int));
            assert(gns.subrange(0, i + 1).last() == gns[i as int]);
            assert(gns[i as int] == ns@[i as int] as nat);
            assert((i as nat) * 0xFFFF_FFFF_FFFF_FFFFnat + 0xFFFF_FFFF_FFFF_FFFFnat == ((i
                + 1) as nat) * 0xFFFF_FFFF_FFFF_FFFFnat) by (nonlinear_arith);
            assert(((i + 1) as nat) * 0xFFFF_FFFF_FFFF_FFFFnat <= (usize::MAX as nat)
                * 0xFFFF_FFFF_FFFF_FFFFnat) by (nonlinear_arith)
                requires
                    i + 1 <= usize::MAX,
            ;
        }
        total = total + (ns[i] as u128);
        i = i + 1;
    }
    proof {
        assert(gns.subrange(0, n as int) =~= gns);
    }
    if total == 0 || idx >= n {
        return None;
    }
    let num = ns[idx] as u128;
    // numerator <= sum, so the price is at most one USDC and fits easily.
    proof {
        lemma_numerator_le_sum(gns, idx as int);
        assert(num <= total);
        assert(total <= (n as nat) * 0xFFFF_FFFF_FFFF_FFFFnat);
        assert((n as nat) * 0xFFFF_FFFF_FFFF_FFFFnat <= 1000 * 0xFFFF_FFFF_FFFF_FFFFnat)
            by (nonlinear_arith)
            requires
                n <= 1000,
        ;
        assert(2 * num * 1_000_000 + total <= 2 * total * 1_000_000 + total) by (nonlinear_arith)
            requires
                num <= total,
        ;
    }
    let p = (2 * num * 1_000_000 + total) / (2 * total);
    proof {
        assert((2 * num * 1_000_000 + total) / (2 * total) <= 1_000_000 + 1) by (nonlinear_arith)
            requires
                num <= total,
                total >= 1,
        ;
    }
    Some(p as u64)
}

/// Each numerator is at most the vector's sum.
pub proof fn lemma_numerator_le_sum(ns: Seq<nat>, idx: int)
    requires
        0 <= idx < ns.len(),
    ensures
        ns[idx] <= numerator_sum(ns),
    decreases ns.len(),
{
    if idx == ns.len() - 1 {
    } else {
        lemma_numerator_le_sum(ns.drop_last(), idx);
        assert(ns.drop_last()[idx] == ns[idx]);
    }
}

/// Index of the first strictly positive numerator: the winning outcome's
/// position. Unreadable entries count as zero.
pub open spec fn winning_index_from(nums: Seq<Seq<char>>, i: int) -> Option<int>
    decreases nums.len() - i,
{
    if i < 0 || i >= nums.len() {
        None
    } else if (match numerator_of(nums[i]) {
        Some(v) => v > 0,
        None => false,
    }) {
        Some(i)
    } else {
        winning_index_from(nums, i + 1)
    }
}

pub open spec fn winning_index_of(nums: Seq<Seq<char>>) -> Option<int> {
    winning_index_from(nums, 0)
}

/// Find the winning outcome's index: the first positive payout numerator.
pub fn winning_index(nums: &Vec<String>) -> (r: Option<usize>)
    ensures
        match r {
            Some(i) => i < nums@.len() && winning_index_of(nums.deep_view()) == Some(i as int),
            None => winning_index_of(nums.deep_view()) is None,
        },
{
    let ghost nd = nums.deep_view();
    let n = nums.len();
    let mut i: usize = 0;
    while i < n
        invariant
            n == nums@.len(),
            nd == nums.deep_view(),
            i <= n,
            winning_index_of(nd) == winning_index_from(nd, i as int),
        decreases n - i,
    {
        proof {
            assert(nd[i as int] == nums@[i as int]@);
        }
        let v = crate::digest::str_to_chars(nums[i].as_str());
        let positive = match parse_dec_capped(&v, 0, v.len(), 0xFFFF_FFFF_FFFF_FFFF) {
            Some(x) => x > 0,
            None => false,
        };
        proof {
            assert(v@.subrange(0, v@.len() as int) =~= v@);
        }
        if positive {
            return Some(i);
        }
        i = i + 1;
    }
    None
}

/// The cache entries whose market resolved under `cid`, in outcome order.
pub struct ConditionMatches {
    pub entries: Vec<MarketInfo>,
}

/// Collect every cached market of the given condition, sorted by outcome
/// index. Identifiers match with `0x` prefixes stripped from both sides.
#[verifier::rlimit(100)]
#[verifier::spinoff_prover]
pub fn matching_condition_entries(cache: &AssocMap<MarketInfo>, cid: &str) -> (r: Vec<MarketInfo>)
    requires
        cache.wf(),
    ensures
        // Only matching entries, each one from the cache.
        forall|x: int|
            0 <= x < r@.len() ==> ((#[trigger] r@[x]).condition_id matches Some(c)
                && condition_ids_match(c@, cid@)) && exists|j: int|
                0 <= j < cache.svals().len() && entry_eq(#[trigger] r@[x], cache.svals()[j]),
        // Every matching cache entry is represented.
        forall|j: int|
            0 <= j < cache.svals().len() && ((#[trigger] cache.svals()[j]).condition_id
                matches Some(c) && condition_ids_match(c@, cid@)) ==> exists|x: int|
                0 <= x < r@.len() && entry_eq(r@[x], cache.svals()[j]),
        // Sorted by outcome index.
        forall|x: int, y: int|
            0 <= x < y < r@.len() ==> r@[x].outcome_index <= r@[y].outcome_index,
{
    let n = cache.len();
    let mut out: Vec<MarketInfo> = Vec::new();
    let mut i: usize = 0;
    while i < n
        invariant
            cache.wf(),
            n == cache.spec_len(),
            i <= n,
            forall|x: int|
                0 <= x < out@.len() ==> ((#[trigger] out@[x]).condition_id matches Some(c)
                    && condition_ids_match(c@, cid@)) && exists|j: int|
                    0 <= j < cache.svals().len() && entry_eq(#[trigger] out@[x], cache.svals()[j]),
            forall|j: int|
                0 <= j < i && ((#[trigger] cache.svals()[j]).condition_id matches Some(c)
                    && condition_ids_match(c@, cid@)) ==> exists|x: int|
                    0 <= x < out@.len() && entry_eq(out@[x], cache.svals()[j]),
        decreases n - i,
    {
        let info = cache.val_at(i);
        let matched = match &info.condition_id {
            Some(c) => condition_id_eq(c.as_str(), cid),
            None => false,
        };
        let ghost preout = out@;
        if matched {
            out.push(clone_market_info(info));
            proof {
                reveal(entry_eq);
                assert(entry_eq(out@[out@.len() - 1], cache.svals()[i as int]));
                assert(out@[out@.len() - 1].condition_id matches Some(c) && condition_ids_match(
                    c@,
                    cid@,
                ));
            }
        }
        proof {
            assert forall|j: int|
                0 <= j < i + 1 && ((#[trigger] cache.svals()[j]).condition_id matches Some(c)
                    && condition_ids_match(c@, cid@)) implies exists|x: int|
                0 <= x < out@.len() && entry_eq(out@[x], cache.svals()[j]) by {
                if j < i {
                    let x = choose|x: int|
                        0 <= x < preout.len() && entry_eq(preout[x], cache.svals()[j]);
                    assert(entry_eq(out@[x], cache.svals()[j]));
                } else {
                    assert(entry_eq(out@[out@.len() - 1], cache.svals()[j]));
                }
            }
        }
        i = i + 1;
    }

    // Selection sort by outcome index: repeatedly move the remaining
    // minimum over.
    let mut sorted: Vec<MarketInfo> = Vec::new();
    while out.len() > 0
        invariant
            cache.wf(),
            forall|x: int|
                0 <= x < out@.len() ==> ((#[trigger] out@[x]).condition_id matches Some(c)
                    && condition_ids_match(c@, cid@)) && exists|j: int|
                    0 <= j < cache.svals().len() && entry_eq(#[trigger] out@[x], cache.svals()[j]),
            forall|x: int|
                0 <= x < sorted@.len() ==> ((#[trigger] sorted@[x]).condition_id matches Some(c)
                    && condition_ids_match(c@, cid@)) && exists|j: int|
                    0 <= j < cache.svals().len() && entry_eq(
                        #[trigger] sorted@[x],
                        cache.svals()[j],
                    ),
            forall|j: int|
                0 <= j < cache.svals().len() && ((#[trigger] cache.svals()[j]).condition_id
                    matches Some(c) && condition_ids_match(c@, cid@)) ==> (exists|x: int|
                    0 <= x < out@.len() && entry_eq(out@[x], cache.svals()[j])) || (exists|x: int|
                    0 <= x < sorted@.len() && entry_eq(sorted@[x], cache.svals()[j])),
            forall|x: int, y: int|
                0 <= x < y < sorted@.len() ==> sorted@[x].outcome_index <= sorted@[y].outcome_index,
            forall|x: int, y: int|
                0 <= x < sorted@.len() && 0 <= y < out@.len() ==> sorted@[x].outcome_index <= out@[
                    y
                ].outcome_index,
        decreases out@.len(),
    {
        // Find the remaining minimum.
        let olen = out.len();
        let mut min_idx: usize = 0;
        let mut t: usize = 1;
        while t < olen
            invariant
                olen == out@.len(),
                olen > 0,
                min_idx < olen,
                t <= olen,
                forall|y: int| 0 <= y < t ==> out@[min_idx as int].outcome_index <= out@[
                    y
                ].outcome_index,
            decreases olen - t,
        {
            if out[t].outcome_index < out[min_idx].outcome_index {
                min_idx = t;
            }
            t = t + 1;
        }
        let ghost preout = out@;
        let ghost presorted = sorted@;
        let picked = out.remove(min_idx);
        sorted.push(picked);
        proof {
            assert(sorted@ == presorted.push(preout[min_idx as int]));
            assert(out@ == preout.remove(min_idx as int));
            assert forall|j: int|
                0 <= j < cache.svals().len() && ((#[trigger] cache.svals()[j]).condition_id
                    matches Some(c) && condition_ids_match(c@, cid@)) implies (exists|x: int|
                0 <= x < out@.len() && entry_eq(out@[x], cache.svals()[j])) || (exists|x: int|
                0 <= x < sorted@.len() && entry_eq(sorted@[x], cache.svals()[j])) by {
                if exists|x: int| 0 <= x < preout.len() && entry_eq(preout[x], cache.svals()[j]) {
                    let x = choose|x: int|
                        0 <= x < preout.len() && entry_eq(preout[x], cache.svals()[j]);
                    if x == min_idx {
                        assert(entry_eq(sorted@[sorted@.len() - 1], cache.svals()[j]));
                    } else if x < min_idx {
                        assert(entry_eq(out@[x], cache.svals()[j]));
                    } else {
                        assert(entry_eq(out@[x - 1], cache.svals()[j]));
                    }
                } else {
                    let x = choose|x: int|
                        0 <= x < presorted.len() && entry_eq(presorted[x], cache.svals()[j]);
                    assert(entry_eq(sorted@[x], cache.svals()[j]));
                }
            }
            assert forall|x: int|
                0 <= x < out@.len() implies ((#[trigger] out@[x]).condition_id matches Some(c)
                && condition_ids_match(c@, cid@)) && exists|j: int|
                0 <= j < cache.svals().len() && entry_eq(#[trigger] out@[x], cache.svals()[j]) by {
                let ox = if x < min_idx {
                    x
                } else {
                    x + 1
                };
                assert(out@[x] == preout[ox]);
            }
        }
    }
    sorted
}

/// Two cache entries carry the same market data.
#[verifier::opaque]
pub open spec fn entry_eq(a: MarketInfo, b: MarketInfo) -> bool {
    &&& a.question@ == b.question@
    &&& a.outcome@ == b.outcome@
    &&& a.category@ == b.category@
    &&& a.active == b.active
    &&& a.gamma_token_id@ == b.gamma_token_id@
    &&& (match (a.condition_id, b.condition_id) {
        (Some(x), Some(y)) => x@ == y@,
        (None, None) => true,
        _ => false,
    })
    &&& a.outcome_index == b.outcome_index
    &&& a.all_token_ids.deep_view() == b.all_token_ids.deep_view()
    &&& a.outcomes.deep_view() == b.outcomes.deep_view()
}

/// Clones one cache entry, field for field.
pub fn clone_market_info(i: &MarketInfo) -> (r: MarketInfo)
    ensures
        entry_eq(r, *i),
{
    proof {
        reveal(entry_eq);
    }
    MarketInfo {
        question: i.question.clone(),
        outcome: i.outcome.clone(),
        category: i.category.clone(),
        active: i.active,
        gamma_token_id: i.gamma_token_id.clone(),
        condition_id: match &i.condition_id {
            Some(c) => Some(c.clone()),
            None => None,
        },
        outcome_index: i.outcome_index,
        all_token_ids: clone_strings(&i.all_token_ids),
        outcomes: clone_strings(&i.outcomes),
    }
}

/// Clones a vector of strings.
pub fn clone_strings(v: &Vec<String>) -> (r: Vec<String>)
    ensures
        r.deep_view() == v.deep_view(),
{
    let n = v.len();
    let mut out: Vec<String> = Vec::new();
    let mut i: usize = 0;
    while i < n
        invariant
            n == v@.len(),
            i <= n,
            out@.len() == i,
            forall|j: int| 0 <= j < i ==> out@[j]@ == v@[j]@,
        decreases n - i,
    {
        out.push(v[i].clone());
        i = i + 1;
    }
    proof {
        assert(out.deep_view() =~= v.deep_view());
    }
    out
}




/// A market record as the catalog returns it for a condition lookup.
pub struct CatalogMarket {
    pub condition_id: Option<String>,
    pub question: Option<String>,
    pub outcomes: Vec<String>,
    pub token_ids: Vec<String>,
}

/// The first catalog record whose condition actually matches. The catalog
/// silently ignores unknown filter parameters and may return unrelated
/// markets, so nothing is accepted on faith: a record naming a different
/// condition never enriches this resolution.
pub fn verify_catalog_response(records: &Vec<CatalogMarket>, cid: &str) -> (r: Option<usize>)
    ensures
        match r {
            Some(i) => i < records@.len() && (records@[i as int].condition_id matches Some(c)
                && condition_ids_match(c@, cid@)),
            None => forall|j: int|
                0 <= j < records@.len() ==> !((#[trigger] records@[j]).condition_id matches Some(c)
                    && condition_ids_match(c@, cid@)),
        },
{
    let n = records.len();
    let mut i: usize = 0;
    while i < n
        invariant
            n == records@.len(),
            i <= n,
            forall|j: int|
                0 <= j < i ==> !((#[trigger] records@[j]).condition_id matches Some(c)
                    && condition_ids_match(c@, cid@)),
        decreases n - i,
    {
        let matched = match &records[i].condition_id {
            Some(c) => condition_id_eq(c.as_str(), cid),
            None => false,
        };
        if matched {
            return Some(i);
        }
        i = i + 1;
    }
    None
}

} // verus!

verus! {

/// Assemble the market-resolution alert for a condition event: raw on-chain
/// fields always, enrichment from the matched cache entries (in outcome
/// order) when there are any, and the winning outcome name at the first
/// positive numerator's position.
pub fn build_resolution_alert(
    condition_id: &String,
    oracle: &String,
    question_id: &String,
    payout_numerators: &Vec<String>,
    tx: &TxInfo,
    matched: &Vec<crate::market::MarketInfo>,
) -> (r: Alert)
    ensures
        r matches Alert::MarketResolution {
            timestamp,
            condition_id: cid,
            oracle: orc,
            question_id: qid,
            payout_numerators: nums,
            tx_hash,
            block_number,
            question,
            winning_outcome,
            outcomes,
            token_id,
        } && {
            &&& timestamp@ == tx.block_timestamp@
            &&& cid@ == condition_id@
            &&& orc@ == oracle@
            &&& qid@ == question_id@
            &&& nums.deep_view() == payout_numerators.deep_view()
            &&& tx_hash@ == tx.transaction_hash@
            &&& block_number == tx.block_number
            &&& (match question {
                Some(q) => matched@.len() > 0 && q@ == matched@[0].question@,
                None => matched@.len() == 0,
            })
            &&& outcomes@.len() == matched@.len()
            &&& (forall|j: int|
                0 <= j < matched@.len() ==> (#[trigger] outcomes@[j])@ == matched@[j].outcome@)
            &&& (match token_id {
                Some(t) => matched@.len() > 0 && t@ == matched@[0].gamma_token_id@,
                None => matched@.len() == 0,
            })
            &&& (match winning_index_of(payout_numerators.deep_view()) {
                Some(w) => if 0 <= w < matched@.len() {
                    winning_outcome matches Some(wo) && wo@ == matched@[w].outcome@
                } else {
                    winning_outcome is None
                },
                None => winning_outcome is None,
            })
        },
{
    let question = if matched.len() > 0 {
        Some(matched[0].question.clone())
    } else {
        None
    };
    let token_id = if matched.len() > 0 {
        Some(matched[0].gamma_token_id.clone())
    } else {
        None
    };
    let n = matched.len();
    let mut outcomes: Vec<String> = Vec::new();
    let mut i: usize = 0;
    while i < n
        invariant
            n == matched@.len(),
            i <= n,
            outcomes@.len() == i,
            forall|j: int| 0 <= j < i ==> (#[trigger] outcomes@[j])@ == matched@[j].outcome@,
        decreases n - i,
    {
        outcomes.push(matched[i].outcome.clone());
        i = i + 1;
    }
    let winning_outcome = match winning_index(payout_numerators) {
        Some(w) => {
            if w < outcomes.len() {
                Some(outcomes[w].clone())
            } else {
                None
            }
        },
        None => None,
    };
    Alert::MarketResolution {
        timestamp: tx.block_timestamp.clone(),
        condition_id: condition_id.clone(),
        oracle: oracle.clone(),
        question_id: question_id.clone(),
        payout_numerators: clone_strings(payout_numerators),
        tx_hash: tx.transaction_hash.clone(),
        block_number: tx.block_number,
        question,
        winning_outcome,
        outcomes,
        token_id,
    }
}

} // verus!

verus! {

/// What one observed asset contributes to the settlement-price table: its
/// price, condition and block when its cached market's condition resolved on
/// chain, nothing otherwise. Identifiers match with `0x` stripped from both
/// sides; payout vectors beyond a thousand entries are not read.
pub open spec fn join_row_of(
    a: Seq<char>,
    cache: AssocMap<crate::market::MarketInfo>,
    resolutions: AssocMap<(Vec<String>, u64)>,
) -> Option<(nat, Seq<char>, u64)> {
    let key = crate::digest::digest_of(a);
    if !cache.spec_contains(key) {
        None
    } else {
        match cache.spec_get(key).condition_id {
            None => None,
            Some(c) => {
                let bare = crate::text::strip_0x(c@);
                if !resolutions.spec_contains(bare) {
                    None
                } else {
                    let nums = resolutions.spec_get(bare).0;
                    let block = resolutions.spec_get(bare).1;
                    if nums@.len() > 1000 {
                        None
                    } else {
                        match resolved_price_of(
                            nums.deep_view(),
                            cache.spec_get(key).outcome_index as int,
                        ) {
                            Some(p) => Some((p, c@, block)),
                            None => None,
                        }
                    }
                }
            },
        }
    }
}

/// The settlement-price rows of the first `i` observed assets, in order.
pub open spec fn joined_upto(
    assets: Seq<Seq<char>>,
    cache: AssocMap<crate::market::MarketInfo>,
    resolutions: AssocMap<(Vec<String>, u64)>,
    i: int,
) -> Seq<(Seq<char>, nat, Seq<char>, u64)>
    decreases i,
{
    if i <= 0 || i > assets.len() {
        Seq::empty()
    } else {
        let rest = joined_upto(assets, cache, resolutions, i - 1);
        match join_row_of(assets[i - 1], cache, resolutions) {
            Some((p, c, b)) => rest.push((assets[i - 1], p, c, b)),
            None => rest,
        }
    }
}

/// Join the observed assets against the cache and the on-chain resolutions:
/// one row per asset whose cached condition resolved, carrying the exact
/// settlement price at six decimals.
pub fn resolved_price_rows(
    assets: &Vec<String>,
    cache: &AssocMap<crate::market::MarketInfo>,
    resolutions: &AssocMap<(Vec<String>, u64)>,
) -> (r: Vec<crate::types::ResolvedPriceRow>)
    requires
        cache.wf(),
        resolutions.wf(),
    ensures
        ({
            let spec = joined_upto(assets.deep_view(), *cache, *resolutions, assets@.len() as int);
            &&& r@.len() == spec.len()
            &&& (forall|x: int|
                0 <= x < spec.len() ==> (#[trigger] r@[x]).asset_id@ == spec[x].0 && r@[
                    x
                ].resolved_price@ == crate::money::usdc_display_of_raw(spec[x].1) && r@[
                    x
                ].condition_id@ == spec[x].2 && r@[x].block_number == spec[x].3)
        }),
{
    let n = assets.len();
    let mut out: Vec<crate::types::ResolvedPriceRow> = Vec::new();
    let mut i: usize = 0;
    while i < n
        invariant
            n == assets@.len(),
            i <= n,
            cache.wf(),
            resolutions.wf(),
            ({
                let spec = joined_upto(assets.deep_view(), *cache, *resolutions, i as int);
                &&& out@.len() == spec.len()
                &&& (forall|x: int|
                    0 <= x < spec.len() ==> (#[trigger] out@[x]).asset_id@ == spec[x].0 && out@[
                        x
                    ].resolved_price@ == crate::money::usdc_display_of_raw(spec[x].1) && out@[
                        x
                    ].condition_id@ == spec[x].2 && out@[x].block_number == spec[x].3)
            }),
        decreases n - i,
    {
        let ghost ga = assets.deep_view()[i as int];
        proof {
            assert(ga == assets@[i as int]@);
        }
        let key = crate::digest::cache_key(assets[i].as_str());
        match cache.get(key.as_str()) {
            Some(info) => {
                match &info.condition_id {
                    Some(c) => {
                        let bare = crate::text::strip_0x_prefix(c.as_str());
                        match resolutions.get(bare.as_str()) {
                            Some(res) => {
                                if res.0.len() <= 1000 {
                                    match resolved_price_micro(&res.0, info.outcome_index) {
                                        Some(p) => {
                                            out.push(
                                                crate::types::ResolvedPriceRow {
                                                    asset_id: assets[i].clone(),
                                                    resolved_price: crate::money::format_usdc_raw(
                                                        p as u128,
                                                    ),
                                                    condition_id: c.clone(),
                                                    block_number: res.1,
                                                },
                                            );
                                        },
                                        None => {},
                                    }
                                }
                            },
                            None => {},
                        }
                    },
                    None => {},
                }
            },
            None => {},
        }
        i = i + 1;
    }
    out
}

} // verus!
