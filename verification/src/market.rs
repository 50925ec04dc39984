//! Market metadata: the cache entry shape and the catalog records it is
//! built from.
//!
//! The catalog delivers events, each holding markets; a market carries its
//! question, a JSON-encoded list of outcome names and a parallel JSON-encoded
//! list of token identifiers, an activity flag pair, and the on-chain
//! condition identifier.

use vstd::prelude::*;

use crate::text::str_eq;

verus! {

/// One market-cache entry: everything enrichment needs about one token.
#[derive(Clone, Debug)]
pub struct MarketInfo {
    pub question: String,
    pub outcome: String,
    pub category: String,
    pub active: bool,
    /// Full-precision token identifier from the catalog.
    pub gamma_token_id: String,
    /// On-chain condition identifier, when the catalog knows it.
    pub condition_id: Option<String>,
    /// This token's position in the market's token list, which is also its
    /// position in the payout-numerator vector.
    pub outcome_index: usize,
    /// Every token of the market, both sides.
    pub all_token_ids: Vec<String>,
    /// Every outcome name, parallel to `all_token_ids`.
    pub outcomes: Vec<String>,
}

impl MarketInfo {
    /// Entry well-formedness: token list and outcome list run in parallel,
    /// and the outcome index points into them.
    pub open spec fn wf(&self) -> bool {
        &&& self.all_token_ids@.len() == self.outcomes@.len()
        &&& self.all_token_ids@.len() > 0 ==> self.outcome_index < self.outcomes@.len()
        &&& self.all_token_ids@.len() == 0 ==> self.outcome_index == 0
    }
}

/// What an outside JSON string-array decode returned for a given text.
pub uninterp spec fn json_string_list_of(s: Seq<char>) -> Option<Seq<Seq<char>>>;

/// Relies on `serde_json::from_str::<Vec<String>>`: decoding a JSON-encoded
/// string array is a function of the text alone.
#[verifier::external_body]
fn parse_json_string_list(s: &str) -> (r: Option<Vec<String>>)
    ensures
        match r {
            Some(v) => json_string_list_of(s@) == Some(v.deep_view()),
            None => json_string_list_of(s@) is None,
        },
{
    serde_json::from_str(s).ok()
}

/// A tag attached to a catalog event.
#[derive(Clone, Debug)]
pub struct GammaTag {
    pub label: String,
}

/// A market as the catalog describes it.
#[derive(Clone, Debug)]
pub struct GammaMarket {
    pub question: Option<String>,
    /// JSON-encoded string array of outcome names.
    pub outcomes: Option<String>,
    /// JSON-encoded string array of token identifiers.
    pub clob_token_ids: Option<String>,
    pub active: Option<bool>,
    pub closed: Option<bool>,
    /// On-chain condition identifier.
    pub condition_id: Option<String>,
}

/// A catalog event: markets plus category tags.
#[derive(Clone, Debug)]
pub struct GammaEvent {
    pub markets: Vec<GammaMarket>,
    pub tags: Vec<GammaTag>,
}

/// The label that tags a derivative's parent and never names a category.
pub open spec fn parent_tag_label() -> Seq<char> {
    "Parent For Derivative"@
}

/// The first tag label from position `i` on that names a category.
pub open spec fn first_tag_from(labels: Seq<Seq<char>>, i: int) -> Seq<char>
    decreases labels.len() - i,
{
    if i < 0 || i >= labels.len() {
        Seq::empty()
    } else if labels[i] != parent_tag_label() {
        labels[i]
    } else {
        first_tag_from(labels, i + 1)
    }
}

/// The category an event's tags name.
pub open spec fn first_tag_of(labels: Seq<Seq<char>>) -> Seq<char> {
    first_tag_from(labels, 0)
}

impl GammaEvent {
    pub open spec fn spec_labels(&self) -> Seq<Seq<char>> {
        Seq::new(self.tags@.len(), |i: int| self.tags@[i].label@)
    }

    /// The event's category: its first tag label, skipping the
    /// parent-for-derivative marker; empty when no tag qualifies.
    pub fn first_tag(&self) -> (r: String)
        ensures
            r@ == first_tag_of(self.spec_labels()),
    {
        let n = self.tags.len();
        let mut i: usize = 0;
        while i < n
            invariant
                n == self.tags@.len(),
                i <= n,
                first_tag_of(self.spec_labels()) == first_tag_from(self.spec_labels(), i as int),
            decreases n - i,
        {
            let label = &self.tags[i].label;
            if !str_eq(label.as_str(), "Parent For Derivative") {
                proof {
                    assert(self.spec_labels()[i as int] == label@);
                }
                return label.clone();
            }
            proof {
                assert(self.spec_labels()[i as int] == label@);
            }
            i = i + 1;
        }
        String::new()
    }
}

impl GammaMarket {
    /// A market is active unless explicitly closed or explicitly inactive.
    pub open spec fn spec_is_active(&self) -> bool {
        &&& !(self.closed matches Some(true))
        &&& !(self.active matches Some(false))
    }

    pub fn is_active(&self) -> (r: bool)
        ensures
            r == self.spec_is_active(),
    {
        let closed = match self.closed {
            Some(c) => c,
            None => false,
        };
        let active = match self.active {
            Some(a) => a,
            None => true,
        };
        !closed && active
    }

    /// The decoded outcome names; empty when absent or undecodable.
    pub open spec fn spec_parsed_outcomes(&self) -> Seq<Seq<char>> {
        match self.outcomes {
            Some(s) => match json_string_list_of(s@) {
                Some(l) => l,
                None => Seq::empty(),
            },
            None => Seq::empty(),
        }
    }

    pub fn parsed_outcomes(&self) -> (r: Vec<String>)
        ensures
            r.deep_view() == self.spec_parsed_outcomes(),
    {
        let out = match &self.outcomes {
            Some(s) => match parse_json_string_list(s.as_str()) {
                Some(v) => v,
                None => Vec::new(),
            },
            None => Vec::new(),
        };
        proof {
            if out@.len() == 0 {
                assert(out.deep_view() =~= Seq::<Seq<char>>::empty());
            }
        }
        out
    }

    /// The decoded token identifiers; empty when absent or undecodable.
    pub open spec fn spec_parsed_token_ids(&self) -> Seq<Seq<char>> {
        match self.clob_token_ids {
            Some(s) => match json_string_list_of(s@) {
                Some(l) => l,
                None => Seq::empty(),
            },
            None => Seq::empty(),
        }
    }

    pub fn parsed_token_ids(&self) -> (r: Vec<String>)
        ensures
            r.deep_view() == self.spec_parsed_token_ids(),
    {
        let out = match &self.clob_token_ids {
            Some(s) => match parse_json_string_list(s.as_str()) {
                Some(v) => v,
                None => Vec::new(),
            },
            None => Vec::new(),
        };
        proof {
            if out@.len() == 0 {
                assert(out.deep_view() =~= Seq::<Seq<char>>::empty());
            }
        }
        out
    }
}

} // verus!
