//! Query-layer guardrails: the sort-column and order allow-lists, the
//! numeric-only token filter that keeps free text out of query templates,
//! exchange-address exclusion, cache keys and display shortening.

use vstd::prelude::*;

use crate::digest::{chars_to_string, str_to_chars};
use crate::numstr::dec_of;
use crate::text::str_eq;

verus! {

/// The only sort columns an analytics query may name.
pub open spec fn sort_allowed(s: Seq<char>) -> bool {
    s == "realized_pnl"@ || s == "total_volume"@ || s == "trade_count"@
}

pub fn validate_sort(sort: &str) -> (r: bool)
    ensures
        r == sort_allowed(sort@),
{
    str_eq(sort, "realized_pnl") || str_eq(sort, "total_volume") || str_eq(sort, "trade_count")
}

/// The only orderings an analytics query may name.
pub open spec fn order_allowed(s: Seq<char>) -> bool {
    s == "asc"@ || s == "desc"@
}

pub fn validate_order(order: &str) -> (r: bool)
    ensures
        r == order_allowed(order@),
{
    str_eq(order, "asc") || str_eq(order, "desc")
}

/// A character a token identifier may contain: digits and the scientific
/// notation punctuation. Anything else is rejected before interpolation.
pub open spec fn token_char_ok(c: char) -> bool {
    crate::numstr::is_digit(c) || c == '.' || c == 'e' || c == 'E' || c == '+' || c == '-'
}

pub open spec fn token_id_ok(s: Seq<char>) -> bool {
    forall|j: int| 0 <= j < s.len() ==> token_char_ok(#[trigger] s[j])
}

/// Whether a free-text token identifier is safe to interpolate: numeric
/// characters only.
pub fn validate_token_id(id: &str) -> (r: bool)
    ensures
        r == token_id_ok(id@),
{
    let n = id.unicode_len();
    let mut i: usize = 0;
    while i < n
        invariant
            n == id@.len(),
            i <= n,
            forall|j: int| 0 <= j < i ==> token_char_ok(#[trigger] id@[j]),
        decreases n - i,
    {
        let c = id.get_char(i);
        let u = c as u32;
        if !(48 <= u && u <= 57) && c != '.' && c != 'e' && c != 'E' && c != '+' && c != '-' {
            return false;
        }
        i = i + 1;
    }
    true
}

/// The exchange intermediaries that never count as traders, as a quoted SQL
/// list.
pub fn exclude_clause() -> (r: String)
    ensures
        r@
            == "'0x4bFb41d5B3570DeFd03C39a9A4D8dE6Bd8B8982E','0xC5d563A36AE78145C45a50134d48A1215220f80a','0x02A86f51aA7B8b1c17c30364748d5Ae4a0727E23'"@,
{
    "'0x4bFb41d5B3570DeFd03C39a9A4D8dE6Bd8B8982E','0xC5d563A36AE78145C45a50134d48A1215220f80a','0x02A86f51aA7B8b1c17c30364748d5Ae4a0727E23'".to_owned()
}

/// The memoization key of a leaderboard shape.
pub open spec fn leaderboard_key_of(
    sort: Seq<char>,
    order: Seq<char>,
    limit: nat,
    offset: nat,
    timeframe: Seq<char>,
) -> Seq<char> {
    sort + seq![':'] + order + seq![':'] + dec_of(limit) + seq![':'] + dec_of(offset) + seq![':']
        + timeframe
}

pub fn leaderboard_cache_key(
    sort: &str,
    order: &str,
    limit: u32,
    offset: u32,
    timeframe: &str,
) -> (r: String)
    ensures
        r@ == leaderboard_key_of(sort@, order@, limit as nat, offset as nat, timeframe@),
{
    let mut out = str_to_chars(sort);
    out.push(':');
    let ov = str_to_chars(order);
    let olen = ov.len();
    crate::digest::push_range(&mut out, &ov, 0, olen);
    out.push(':');
    let lim = crate::numstr::u128_to_dec_chars(limit as u128);
    let llen = lim.len();
    crate::digest::push_range(&mut out, &lim, 0, llen);
    out.push(':');
    let off = crate::numstr::u128_to_dec_chars(offset as u128);
    let flen = off.len();
    crate::digest::push_range(&mut out, &off, 0, flen);
    out.push(':');
    let tf = str_to_chars(timeframe);
    let tlen = tf.len();
    crate::digest::push_range(&mut out, &tf, 0, tlen);
    proof {
        assert(ov@.subrange(0, ov@.len() as int) =~= order@);
        assert(lim@.subrange(0, lim@.len() as int) =~= lim@);
        assert(off@.subrange(0, off@.len() as int) =~= off@);
        assert(tf@.subrange(0, tf@.len() as int) =~= timeframe@);
        assert(out@ =~= leaderboard_key_of(sort@, order@, limit as nat, offset as nat, timeframe@));
    }
    chars_to_string(&out)
}

/// Clamp a requested page size: the default when absent, never over the cap.
pub fn cap_limit(requested: Option<u32>, default: u32, cap: u32) -> (r: u32)
    ensures
        r == (if (match requested {
            Some(x) => x,
            None => default,
        }) > cap {
            cap
        } else {
            match requested {
                Some(x) => x,
                None => default,
            }
        }),
{
    let want = match requested {
        Some(x) => x,
        None => default,
    };
    if want > cap {
        cap
    } else {
        want
    }
}

/// The hot-markets view fetches three rows per requested row, to survive the
/// sibling merge.
pub fn hot_fetch_limit(limit: u32) -> (r: u32)
    requires
        limit <= 100,
    ensures
        r == 3 * limit,
{
    3 * limit
}

/// A well-formed wallet address: `0x` and forty hex digits. The result is the
/// lowercased form.
pub fn validate_eth_address(s: &str) -> (r: Option<String>)
    ensures
        match r {
            Some(lowered) => lowered@ == crate::text::lower_of(s@) && lowered@.len() == 42,
            None => crate::text::lower_of(s@).len() != 42 || crate::text::lower_of(s@)[0] != '0'
                || crate::text::lower_of(s@)[1] != 'x' || !crate::hexstr::all_hex(
                crate::text::lower_of(s@).skip(2),
            ),
        },
{
    let lower = crate::text::to_lower(s);
    let n = lower.as_str().unicode_len();
    if n != 42 {
        return None;
    }
    let v = crate::digest::str_to_chars(lower.as_str());
    if !(v[0] == '0' && v[1] == 'x') {
        return None;
    }
    let mut i: usize = 2;
    while i < 42
        invariant
            v@ == crate::text::lower_of(s@),
            v@.len() == 42,
            2 <= i <= 42,
            forall|j: int| 0 <= j < i - 2 ==> crate::hexstr::is_hex_digit(#[trigger] v@.skip(2)[j]),
        decreases 42 - i,
    {
        if crate::hexstr::hex_digit(v[i]) >= 16 {
            proof {
                assert(v@.skip(2)[i - 2] == v@[i as int]);
            }
            return None;
        }
        proof {
            assert(v@.skip(2)[i - 2] == v@[i as int]);
        }
        i = i + 1;
    }
    Some(lower)
}

/// The webhook's shared-secret gate: an empty configured secret disables the
/// check; otherwise the provided header must match byte for byte.
pub fn webhook_authorized(expected: &str, provided: &str) -> (r: bool)
    ensures
        r == (expected@.len() == 0 || expected@ == provided@),
{
    expected.unicode_len() == 0 || str_eq(expected, provided)
}

/// Whether a memoized response is still fresh at `now`.
pub fn cache_entry_fresh(expires: u64, now: u64) -> (r: bool)
    ensures
        r == (expires > now),
{
    expires > now
}

/// The shortened display form of a long identifier: first six characters, an
/// ellipsis, last four. Short identifiers pass through.
pub open spec fn shortened_of(s: Seq<char>) -> Seq<char> {
    if s.len() <= 12 {
        s
    } else {
        s.subrange(0, 6) + seq!['.', '.', '.'] + s.subrange(s.len() - 4, s.len() as int)
    }
}

pub fn shorten_id(id: &str) -> (r: String)
    ensures
        r@ == shortened_of(id@),
{
    let n = id.unicode_len();
    if n <= 12 {
        return id.to_owned();
    }
    let v = str_to_chars(id);
    let mut out: Vec<char> = Vec::new();
    crate::digest::push_range(&mut out, &v, 0, 6);
    out.push('.');
    out.push('.');
    out.push('.');
    crate::digest::push_range(&mut out, &v, n - 4, n);
    proof {
        assert(out@ =~= shortened_of(id@));
    }
    chars_to_string(&out)
}

} // verus!
