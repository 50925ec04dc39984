//! Warming the market cache from catalog event pages.
//!
//! The warm targets exactly the tokens the analytics store has seen: their
//! digests form the target set, and a page's markets are folded in only where
//! a token's digest is targeted. Pagination stops when every target is
//! covered, a short page arrives, or the scan cap is reached.

use vstd::prelude::*;

use crate::assoc::AssocMap;
use crate::digest::{cache_key, digest_of};
use crate::market::{first_tag_of, GammaEvent, MarketInfo};

verus! {

/// How many catalog events one warm cycle may scan.
pub const MAX_WARM_OFFSET: u32 = 100_000;

/// Whether pagination continues after a page, and from which offset: it stops
/// once every target is covered, on a short page, and at the scan cap.
pub open spec fn warm_next_offset(
    covered: nat,
    target: nat,
    page_len: nat,
    batch: u32,
    offset: u32,
) -> Option<u32> {
    if covered >= target || page_len < batch || offset + batch >= MAX_WARM_OFFSET {
        None
    } else {
        Some((offset + batch) as u32)
    }
}

/// Decide whether to fetch another page, and from where.
pub fn warm_continue(covered: usize, target: usize, page_len: usize, batch: u32, offset: u32) -> (r:
    Option<u32>)
    requires
        offset <= MAX_WARM_OFFSET,
    ensures
        r == warm_next_offset(
            covered as nat,
            target as nat,
            page_len as nat,
            batch,
            offset,
        ),
{
    if covered >= target || page_len < (batch as usize) || (offset as u64) + (batch as u64)
        >= MAX_WARM_OFFSET as u64 {
        None
    } else {
        Some(offset + batch)
    }
}

/// The token at position `i` of market `m` of event `e`.
pub open spec fn tok_at(events: Seq<GammaEvent>, e: int, m: int, i: int) -> Seq<char> {
    events[e].markets@[m].spec_parsed_token_ids()[i]
}

/// Whether `(e, m, i)` addresses a token of the page.
pub open spec fn tok_in_page(events: Seq<GammaEvent>, e: int, m: int, i: int) -> bool {
    0 <= e < events.len() && 0 <= m < events[e].markets@.len() && 0 <= i < events[e].markets@[
        m
    ].spec_parsed_token_ids().len()
}

/// An outcome list padded with empty names up to the token count.
pub open spec fn padded_outcomes(outcomes: Seq<Seq<char>>, n: nat) -> Seq<Seq<char>> {
    Seq::new(
        n,
        |j: int|
            if j < outcomes.len() {
                outcomes[j]
            } else {
                Seq::<char>::empty()
            },
    )
}

/// Whether `entry`, stored under key `k`, is exactly what some market of the
/// page writes for one of its tokens: the key is the token's digest and every
/// field comes from that market and position.
pub open spec fn entry_from_page(entry: MarketInfo, events: Seq<GammaEvent>, k: Seq<char>) -> bool {
    exists|e: int, m: int, i: int|
        tok_in_page(events, e, m, i) && entry_of_token(entry, events, e, m, i) && digest_of(
            #[trigger] tok_at(events, e, m, i),
        ) == k
}

/// Whether `entry` carries exactly market `m` of event `e`'s data for its
/// token at position `i`.
pub open spec fn entry_of_token(
    entry: MarketInfo,
    events: Seq<GammaEvent>,
    e: int,
    m: int,
    i: int,
) -> bool {
    let mk = events[e].markets@[m];
    let ids = mk.spec_parsed_token_ids();
    let outs = mk.spec_parsed_outcomes();
    &&& entry.gamma_token_id@ == ids[i]
    &&& entry.question@ == (match mk.question {
        Some(q) => q@,
        None => Seq::<char>::empty(),
    })
    &&& entry.outcome@ == (if i < outs.len() {
        outs[i]
    } else {
        Seq::<char>::empty()
    })
    &&& entry.category@ == first_tag_of(events[e].spec_labels())
    &&& entry.active == mk.spec_is_active()
    &&& (match (entry.condition_id, mk.condition_id) {
        (Some(a), Some(b)) => a@ == b@,
        (None, None) => true,
        _ => false,
    })
    &&& entry.outcome_index == i
    &&& entry.all_token_ids.deep_view() == ids
    &&& entry.outcomes.deep_view() == padded_outcomes(outs, ids.len())
}

/// Whether every targeted token of the page has its digest in the cache.
pub open spec fn page_covered(
    cache: AssocMap<MarketInfo>,
    events: Seq<GammaEvent>,
    targets: AssocMap<bool>,
) -> bool {
    forall|e: int, m: int, i: int|
        tok_in_page(events, e, m, i) && targets.spec_contains(
            digest_of(#[trigger] tok_at(events, e, m, i)),
        ) ==> cache.spec_contains(digest_of(tok_at(events, e, m, i)))
}

/// Fold one catalog page into the cache. Every token of every market whose
/// digest is targeted ends up covered, each written entry is exactly what one
/// market of the page stores for that key, untargeted digests never enter,
/// and entries under untargeted keys are untouched.
#[verifier::rlimit(100)]
#[verifier::spinoff_prover]
pub fn warm_insert_page(
    cache: &mut AssocMap<MarketInfo>,
    events: &Vec<GammaEvent>,
    targets: &AssocMap<bool>,
) -> (added: usize)
    requires
        old(cache).wf(),
        targets.wf(),
    ensures
        final(cache).wf(),
        // Completeness: every targeted token of the page is now covered.
        page_covered(*final(cache), events@, *targets),
        // No stray keys: everything new is a targeted digest.
        forall|k: Seq<char>|
            #[trigger] final(cache).spec_contains(k) ==> old(cache).spec_contains(k)
                || targets.spec_contains(k),
        // Untargeted entries are untouched.
        forall|k: Seq<char>|
            !targets.spec_contains(k) && #[trigger] old(cache).spec_contains(k) ==> final(cache).spec_contains(k) && final(cache).spec_get(k) == old(cache).spec_get(k),
        // Everything present stays present.
        forall|k: Seq<char>|
            #[trigger] old(cache).spec_contains(k) ==> final(cache).spec_contains(k),
        // Every entry written carries one page market's data under the
        // token's own digest, and is well formed.
        forall|k: Seq<char>|
            #[trigger] final(cache).spec_contains(k) && (!old(cache).spec_contains(k) || final(cache).spec_get(k) != old(cache).spec_get(k)) ==> entry_from_page(
                final(cache).spec_get(k),
                events@,
                k,
            ),
        forall|k: Seq<char>|
            #[trigger] final(cache).spec_contains(k) && !old(cache).spec_contains(k) ==> final(cache).spec_get(k).wf(),
{
    let ghost pre = *cache;
    let mut added: usize = 0;
    let ne = events.len();
    let mut e: usize = 0;
    while e < ne
        invariant
            targets.wf(),
            ne == events@.len(),
            e <= ne,
            cache.wf(),
            forall|k: Seq<char>|
                #[trigger] cache.spec_contains(k) ==> pre.spec_contains(k) || targets.spec_contains(k),
            forall|k: Seq<char>|
                !targets.spec_contains(k) && #[trigger] pre.spec_contains(k)
                    ==> cache.spec_contains(k) && cache.spec_get(k) == pre.spec_get(k),
            forall|k: Seq<char>| #[trigger] pre.spec_contains(k) ==> cache.spec_contains(k),
            forall|k: Seq<char>|
                #[trigger] cache.spec_contains(k) && !pre.spec_contains(k) ==> cache.spec_get(k).wf(),
            forall|k: Seq<char>|
                #[trigger] cache.spec_contains(k) && (!pre.spec_contains(k) || cache.spec_get(k)
                    != pre.spec_get(k)) ==> entry_from_page(cache.spec_get(k), events@, k),
            forall|e2: int, m2: int, i2: int|
                tok_in_page(events@, e2, m2, i2) && e2 < e && targets.spec_contains(
                    digest_of(#[trigger] tok_at(events@, e2, m2, i2)),
                ) ==> cache.spec_contains(digest_of(tok_at(events@, e2, m2, i2))),
        decreases ne - e,
    {
        let event = &events[e];
        let category = event.first_tag();
        let nm = event.markets.len();
        let mut m: usize = 0;
        while m < nm
            invariant
                targets.wf(),
                e < events@.len(),
                ne == events@.len(),
                nm == events@[e as int].markets@.len(),
                m <= nm,
                category@ == first_tag_of(events@[e as int].spec_labels()),
                cache.wf(),
                forall|k: Seq<char>|
                    #[trigger] cache.spec_contains(k) ==> pre.spec_contains(k)
                        || targets.spec_contains(k),
                forall|k: Seq<char>|
                    !targets.spec_contains(k) && #[trigger] pre.spec_contains(k)
                        ==> cache.spec_contains(k) && cache.spec_get(k) == pre.spec_get(k),
                forall|k: Seq<char>| #[trigger] pre.spec_contains(k) ==> cache.spec_contains(k),
                forall|k: Seq<char>|
                    #[trigger] cache.spec_contains(k) && !pre.spec_contains(k) ==> cache.spec_get(k).wf(),
                forall|k: Seq<char>|
                    #[trigger] cache.spec_contains(k) && (!pre.spec_contains(k) || cache.spec_get(
                        k,
                    ) != pre.spec_get(k)) ==> entry_from_page(cache.spec_get(k), events@, k),
                forall|e2: int, m2: int, i2: int|
                    tok_in_page(events@, e2, m2, i2) && (e2 < e || (e2 == e && m2 < m))
                        && targets.spec_contains(digest_of(#[trigger] tok_at(events@, e2, m2, i2)))
                        ==> cache.spec_contains(digest_of(tok_at(events@, e2, m2, i2))),
            decreases nm - m,
        {
            let market = &events[e].markets[m];
            let ids = market.parsed_token_ids();
            let outcomes = market.parsed_outcomes();
            let active = market.is_active();
            let ni = ids.len();
            let mut i: usize = 0;
            while i < ni
                invariant
                    targets.wf(),
                    e < events@.len(),
                    ne == events@.len(),
                    m < events@[e as int].markets@.len(),
                    nm == events@[e as int].markets@.len(),
                    ni == ids@.len(),
                    i <= ni,
                    *market == events@[e as int].markets@[m as int],
                    ids.deep_view() == events@[e as int].markets@[m as int].spec_parsed_token_ids(),
                    outcomes.deep_view() == events@[e as int].markets@[
                        m as int
                    ].spec_parsed_outcomes(),
                    active == events@[e as int].markets@[m as int].spec_is_active(),
                    category@ == first_tag_of(events@[e as int].spec_labels()),
                    cache.wf(),
                    forall|k: Seq<char>|
                        #[trigger] cache.spec_contains(k) ==> pre.spec_contains(k)
                            || targets.spec_contains(k),
                    forall|k: Seq<char>|
                        !targets.spec_contains(k) && #[trigger] pre.spec_contains(k)
                            ==> cache.spec_contains(k) && cache.spec_get(k) == pre.spec_get(k),
                    forall|k: Seq<char>| #[trigger] pre.spec_contains(k) ==> cache.spec_contains(k),
                    forall|k: Seq<char>|
                        #[trigger] cache.spec_contains(k) && !pre.spec_contains(k)
                            ==> cache.spec_get(k).wf(),
                    forall|k: Seq<char>|
                        #[trigger] cache.spec_contains(k) && (!pre.spec_contains(k)
                            || cache.spec_get(k) != pre.spec_get(k)) ==> entry_from_page(
                            cache.spec_get(k),
                            events@,
                            k,
                        ),
                    forall|e2: int, m2: int, i2: int|
                        tok_in_page(events@, e2, m2, i2) && (e2 < e || (e2 == e && m2 < m) || (e2
                            == e && m2 == m && i2 < i)) && targets.spec_contains(
                            digest_of(#[trigger] tok_at(events@, e2, m2, i2)),
                        ) ==> cache.spec_contains(digest_of(tok_at(events@, e2, m2, i2))),
                decreases ni - i,
            {
                let key = cache_key(ids[i].as_str());
                proof {
                    assert(ids.deep_view()[i as int] == ids@[i as int]@);
                    assert(key@ == digest_of(tok_at(events@, e as int, m as int, i as int)));
                }
                if targets.contains(key.as_str()) {
                    // The outcome name at this token's position, empty when
                    // the lists are not parallel.
                    let outcome = if i < outcomes.len() {
                        outcomes[i].clone()
                    } else {
                        String::new()
                    };
                    // Pad the outcome list so the entry invariant holds even
                    // on a catalog record whose lists disagree.
                    let mut padded: Vec<String> = Vec::new();
                    let mut j: usize = 0;
                    while j < ni
                        invariant
                            ni == ids@.len(),
                            j <= ni,
                            padded@.len() == j,
                            outcomes.deep_view() == events@[e as int].markets@[
                                m as int
                            ].spec_parsed_outcomes(),
                            forall|j2: int|
                                0 <= j2 < j ==> (#[trigger] padded@[j2])@ == (if j2
                                    < outcomes.deep_view().len() {
                                    outcomes.deep_view()[j2]
                                } else {
                                    Seq::<char>::empty()
                                }),
                        decreases ni - j,
                    {
                        if j < outcomes.len() {
                            padded.push(outcomes[j].clone());
                            proof {
                                assert(outcomes.deep_view()[j as int] == outcomes@[j as int]@);
                            }
                        } else {
                            padded.push(String::new());
                        }
                        j = j + 1;
                    }
                    let entry = MarketInfo {
                        question: match &market.question {
                            Some(q) => q.clone(),
                            None => String::new(),
                        },
                        outcome,
                        category: category.clone(),
                        active,
                        gamma_token_id: ids[i].clone(),
                        condition_id: match &market.condition_id {
                            Some(c) => Some(c.clone()),
                            None => None,
                        },
                        outcome_index: i,
                        all_token_ids: crate::resolution::clone_strings(&ids),
                        outcomes: padded,
                    };
                    let ghost precache = *cache;
                    proof {
                        assert(entry.all_token_ids.deep_view().len() == ids.deep_view().len());
                        assert(entry.all_token_ids@.len() == ids@.len());
                        assert(entry.outcomes@.len() == ids@.len());
                        assert(entry.wf());
                        assert(entry.outcomes.deep_view() =~= padded_outcomes(
                            events@[e as int].markets@[m as int].spec_parsed_outcomes(),
                            ids.deep_view().len(),
                        ));
                        assert(outcomes.deep_view().len() == outcomes@.len());
                        if i < outcomes.len() {
                            assert(outcomes.deep_view()[i as int] == outcomes@[i as int]@);
                        }
                        assert(ids.deep_view()[i as int] == ids@[i as int]@);
                        assert(entry.gamma_token_id@ == ids.deep_view()[i as int]);
                        assert(entry.question@ == (match events@[e as int].markets@[
                            m as int
                        ].question {
                            Some(q) => q@,
                            None => Seq::<char>::empty(),
                        }));
                        assert(entry.outcome@ == (if (i as int) < events@[e as int].markets@[
                            m as int
                        ].spec_parsed_outcomes().len() {
                            events@[e as int].markets@[m as int].spec_parsed_outcomes()[i as int]
                        } else {
                            Seq::<char>::empty()
                        }));
                        assert(entry.category@ == first_tag_of(events@[e as int].spec_labels()));
                        assert(entry.active == events@[e as int].markets@[
                            m as int
                        ].spec_is_active());
                        assert((match (entry.condition_id, events@[e as int].markets@[
                            m as int
                        ].condition_id) {
                            (Some(a), Some(b)) => a@ == b@,
                            (None, None) => true,
                            _ => false,
                        }));
                        assert(entry.all_token_ids.deep_view() == events@[e as int].markets@[
                            m as int
                        ].spec_parsed_token_ids());
                        assert(entry_of_token(entry, events@, e as int, m as int, i as int));
                        assert(entry_from_page(entry, events@, key@)) by {
                            assert(tok_in_page(events@, e as int, m as int, i as int)
                                && entry_of_token(entry, events@, e as int, m as int, i as int)
                                && digest_of(tok_at(events@, e as int, m as int, i as int))
                                == key@);
                        }
                    }
                    cache.insert(key, entry);
                    if added < usize::MAX {
                        added = added + 1;
                    }
                    proof {
                        let gk = digest_of(tok_at(events@, e as int, m as int, i as int));
                        assert forall|k: Seq<char>| #[trigger] cache.spec_contains(k) implies
                            precache.spec_contains(k) || targets.spec_contains(k) by {
                            if crate::assoc::key_index(precache.skeys(), gk) >= 0 {
                                assert(cache.skeys() == precache.skeys());
                            } else {
                                crate::assoc::lemma_contains_push(precache.skeys(), gk, k);
                                if k == gk {
                                    assert(targets.spec_contains(gk));
                                }
                            }
                        }
                        assert forall|k: Seq<char>|
                            precache.spec_contains(k) implies #[trigger] cache.spec_contains(k) by {
                            if crate::assoc::key_index(precache.skeys(), gk) >= 0 {
                                assert(cache.skeys() == precache.skeys());
                            } else {
                                crate::assoc::lemma_key_index_found(precache.skeys(), k, 0);
                                crate::assoc::lemma_key_index_push_preserves(
                                    precache.skeys(),
                                    gk,
                                    k,
                                    0,
                                );
                            }
                        }
                        assert forall|k: Seq<char>|
                            k != gk && precache.spec_contains(k) implies #[trigger] cache.spec_get(
                            k,
                        ) == precache.spec_get(k) by {
                            crate::assoc::lemma_key_index_found(precache.skeys(), k, 0);
                            if crate::assoc::key_index(precache.skeys(), gk) >= 0 {
                                crate::assoc::lemma_key_index_found(precache.skeys(), gk, 0);
                            } else {
                                crate::assoc::lemma_key_index_push_preserves(
                                    precache.skeys(),
                                    gk,
                                    k,
                                    0,
                                );
                            }
                        }
                        assert(cache.spec_get(gk).wf());
                        assert(entry_from_page(cache.spec_get(gk), events@, gk));
                        assert forall|k: Seq<char>|
                            #[trigger] cache.spec_contains(k) && !pre.spec_contains(k) implies
                            cache.spec_get(k).wf() by {
                            if k == gk {
                            } else {
                                if crate::assoc::key_index(precache.skeys(), gk) >= 0 {
                                    assert(cache.skeys() == precache.skeys());
                                    assert(precache.spec_contains(k));
                                } else {
                                    crate::assoc::lemma_contains_push(precache.skeys(), gk, k);
                                    assert(precache.spec_contains(k));
                                }
                                assert(cache.spec_get(k) == precache.spec_get(k));
                            }
                        }
                        assert forall|k: Seq<char>|
                            #[trigger] cache.spec_contains(k) && (!pre.spec_contains(k)
                                || cache.spec_get(k) != pre.spec_get(k)) implies entry_from_page(
                            cache.spec_get(k),
                            events@,
                            k,
                        ) by {
                            if k == gk {
                            } else {
                                if crate::assoc::key_index(precache.skeys(), gk) >= 0 {
                                    assert(cache.skeys() == precache.skeys());
                                    assert(precache.spec_contains(k));
                                } else {
                                    crate::assoc::lemma_contains_push(precache.skeys(), gk, k);
                                    assert(precache.spec_contains(k));
                                }
                                assert(cache.spec_get(k) == precache.spec_get(k));
                            }
                        }
                        assert forall|e2: int, m2: int, i2: int|
                            tok_in_page(events@, e2, m2, i2) && (e2 < e || (e2 == e && m2 < m) || (
                            e2 == e && m2 == m && i2 < i + 1)) && targets.spec_contains(
                            digest_of(#[trigger] tok_at(events@, e2, m2, i2)),
                        ) implies cache.spec_contains(
                            digest_of(tok_at(events@, e2, m2, i2)),
                        ) by {
                            if e2 == e && m2 == m && i2 == i {
                            } else {
                                assert(precache.spec_contains(
                                    digest_of(tok_at(events@, e2, m2, i2)),
                                ));
                            }
                        }
                    }
                } else {
                    proof {
                        assert forall|e2: int, m2: int, i2: int|
                            tok_in_page(events@, e2, m2, i2) && (e2 < e || (e2 == e && m2 < m) || (
                            e2 == e && m2 == m && i2 < i + 1)) && targets.spec_contains(
                            digest_of(#[trigger] tok_at(events@, e2, m2, i2)),
                        ) implies cache.spec_contains(
                            digest_of(tok_at(events@, e2, m2, i2)),
                        ) by {
                            if e2 == e && m2 == m && i2 == i {
                                assert(!targets.spec_contains(key@));
                            }
                        }
                    }
                }
                i = i + 1;
            }
            m = m + 1;
        }
        e = e + 1;
    }
    proof {
        assert forall|e2: int, m2: int, i2: int|
            tok_in_page(events@, e2, m2, i2) && targets.spec_contains(
                digest_of(#[trigger] tok_at(events@, e2, m2, i2)),
            ) implies cache.spec_contains(digest_of(tok_at(events@, e2, m2, i2))) by {
            assert(e2 < ne);
        }
    }
    added
}

} // verus!
