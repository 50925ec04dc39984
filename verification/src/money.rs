//! USDC amounts.
//!
//! On-chain amounts are raw integers with six implied decimals; the analytics
//! store ships amounts back as decimal strings. All arithmetic here is exact,
//! in micro-USDC (millionths).

use vstd::prelude::*;

use crate::numstr::{all_digits, dec_of, dec_val, is_digit, parse_dec_capped, u128_to_dec_chars};
use crate::digest::{chars_to_string, str_to_chars};

verus! {

/// Raw micro-USDC amount at and above which a fill is a whale trade
/// ($25,000).
pub const WHALE_THRESHOLD_RAW: u128 = 25_000_000_000;

/// A raw amount string read as a number; zero when empty, malformed or
/// beyond `u128`.
pub open spec fn raw_or_zero(s: Seq<char>) -> nat {
    if s.len() > 0 && all_digits(s) && dec_val(s) <= u128::MAX {
        dec_val(s)
    } else {
        0
    }
}

/// Six zero-padded fraction digits of a micro amount below one USDC.
pub open spec fn frac6_of(m: nat) -> Seq<char> {
    dec_of((1_000_000 + m) as nat).skip(1)
}

/// The display form of a raw amount: whole USDC, a dot, six fraction digits.
pub open spec fn usdc_display_of_raw(n: nat) -> Seq<char> {
    dec_of(n / 1_000_000) + seq!['.'] + frac6_of(n % 1_000_000)
}

/// The display form of a raw amount string.
pub open spec fn usdc_display_of(s: Seq<char>) -> Seq<char> {
    usdc_display_of_raw(raw_or_zero(s))
}

/// A fill is a whale trade exactly when its raw USDC size reaches the
/// threshold; one unit under it is not.
pub fn is_whale(usdc_raw: u128) -> (r: bool)
    ensures
        r == (usdc_raw >= WHALE_THRESHOLD_RAW),
{
    usdc_raw >= WHALE_THRESHOLD_RAW
}

/// Reads a raw amount string; zero when it is not a plain decimal that fits.
pub fn parse_raw_or_zero(s: &str) -> (r: u128)
    ensures
        r as nat == raw_or_zero(s@),
{
    let v = str_to_chars(s);
    match parse_dec_capped(&v, 0, v.len(), u128::MAX) {
        Some(n) => {
            proof {
                assert(v@.subrange(0, v@.len() as int) =~= v@);
            }
            n
        },
        None => {
            proof {
                assert(v@.subrange(0, v@.len() as int) =~= v@);
            }
            0
        },
    }
}

/// Renders a raw micro amount as `whole.frac6`.
pub fn format_usdc_raw(n: u128) -> (r: String)
    ensures
        r@ == usdc_display_of_raw(n as nat),
{
    let whole = n / 1_000_000;
    let frac = n % 1_000_000;
    let mut out = u128_to_dec_chars(whole);
    out.push('.');
    let padded = u128_to_dec_chars(1_000_000 + frac);
    let mut i: usize = 1;
    let plen = padded.len();
    while i < plen
        invariant
            1 <= i <= plen,
            plen == padded@.len(),
            out@ == dec_of((n / 1_000_000) as nat) + seq!['.'] + padded@.subrange(1, i as int),
        decreases plen - i,
    {
        out.push(padded[i]);
        proof {
            assert(dec_of((n / 1_000_000) as nat) + seq!['.'] + padded@.subrange(1, i + 1) =~= (
            dec_of((n / 1_000_000) as nat) + seq!['.'] + padded@.subrange(1, i as int)).push(
                padded@[i as int],
            ));
        }
        i = i + 1;
    }
    proof {
        assert(padded@.subrange(1, plen as int) =~= padded@.skip(1));
    }
    chars_to_string(&out)
}

/// Format a raw USDC amount string for display: `whole.frac6`. Unreadable
/// input renders as zero.
pub fn format_usdc(raw: &str) -> (r: String)
    ensures
        r@ == usdc_display_of(raw@),
{
    let n = parse_raw_or_zero(raw);
    format_usdc_raw(n)
}

/// The value, in micro-USDC, of the first six fraction digits of a display
/// string, zero-padded on the right.
pub open spec fn frac_micro_of(fr: Seq<char>) -> nat {
    let f6 = if fr.len() >= 6 {
        fr.subrange(0, 6)
    } else {
        fr + crate::numstr::zeros((6 - fr.len()) as nat)
    };
    dec_val(f6)
}

/// A display amount `whole[.frac]` read in micro-USDC; zero when malformed or
/// beyond the cap. Fraction digits past the sixth are dropped.
pub open spec fn display_micro_of(s: Seq<char>, cap: nat) -> nat {
    match crate::digest::find_dot_from(s, 0) {
        None => {
            if s.len() > 0 && all_digits(s) && dec_val(s) * 1_000_000 <= cap {
                dec_val(s) * 1_000_000
            } else {
                0
            }
        },
        Some(k) => {
            let w = s.subrange(0, k);
            let fr = s.subrange(k + 1, s.len() as int);
            if w.len() > 0 && all_digits(w) && all_digits(fr) && dec_val(w) * 1_000_000
                + frac_micro_of(fr) <= cap {
                dec_val(w) * 1_000_000 + frac_micro_of(fr)
            } else {
                0
            }
        },
    }
}

/// Whether a display amount is readable at all: a plain decimal of the
/// `whole[.frac]` shape within the cap. An unreadable amount reads as zero in
/// `display_micro_of` — and as one half where the caller says so.
pub open spec fn display_readable(s: Seq<char>, cap: nat) -> bool {
    match crate::digest::find_dot_from(s, 0) {
        None => s.len() > 0 && all_digits(s) && dec_val(s) * 1_000_000 <= cap,
        Some(k) => {
            let w = s.subrange(0, k);
            let fr = s.subrange(k + 1, s.len() as int);
            w.len() > 0 && all_digits(w) && all_digits(fr) && dec_val(w) * 1_000_000
                + frac_micro_of(fr) <= cap
        },
    }
}

/// Reads a display amount; `None` exactly when it is unreadable.
pub fn parse_display_micro_checked(s: &str) -> (r: Option<u64>)
    ensures
        r is Some <==> display_readable(s@, u64::MAX as nat),
        r matches Some(x) ==> x as nat == display_micro_of(s@, u64::MAX as nat),
{
    let v = str_to_chars(s);
    let n = v.len();
    let dot = crate::digest::find_dot_pos(&v, 0);
    let (w_to, f_from): (usize, usize) = match dot {
        Some(k) => (k, k + 1),
        None => (n, n),
    };
    let ghost w = v@.subrange(0, w_to as int);
    let ghost fr = v@.subrange(f_from as int, n as int);
    proof {
        if dot is None {
            assert(w =~= v@);
        }
    }
    let whole = match parse_dec_capped(&v, 0, w_to, u64::MAX as u128 / 1_000_000) {
        Some(x) => x,
        None => {
            proof {
                if w.len() > 0 && all_digits(w) {
                    assert(dec_val(w) > u64::MAX as u128 / 1_000_000);
                    assert(dec_val(w) * 1_000_000 > u64::MAX as nat);
                }
            }
            return None;
        },
    };
    let frac: u128 = if f_from < n {
        if !crate::digest::check_all_digits(&v, f_from, n) {
            return None;
        }
        // The first six fraction digits, zero-padded on the right.
        let f_to = if n - f_from >= 6 {
            f_from + 6
        } else {
            n
        };
        let mut fv: Vec<char> = Vec::new();
        crate::digest::push_range(&mut fv, &v, f_from, f_to);
        crate::digest::push_zeros(&mut fv, 6 - (f_to - f_from));
        proof {
            if fr.len() >= 6 {
                assert(fv@ =~= fr.subrange(0, 6));
            } else {
                assert(fv@ =~= fr + crate::numstr::zeros((6 - fr.len()) as nat));
            }
            assert(all_digits(fv@)) by {
                crate::numstr::lemma_zeros_val((6 - (f_to - f_from)) as nat);
                assert(forall|j: int|
                    0 <= j < fr.len() ==> fr[j] == v@[f_from + j] && is_digit(#[trigger] fr[j]));
                if fr.len() >= 6 {
                    assert(forall|j: int| 0 <= j < 6 ==> fv@[j] == fr[j]);
                } else {
                    assert(forall|j: int|
                        fr.len() <= j < 6 ==> fv@[j] == crate::numstr::zeros(
                            (6 - fr.len()) as nat,
                        )[j - fr.len()]);
                }
            }
            assert(fv@.subrange(0, 6) =~= fv@);
        }
        let x = crate::numstr::parse_dec_exact(&fv, 0, 6);
        proof {
            assert(x as nat == frac_micro_of(fr));
            crate::numstr::lemma_dec_val_bound(fv@);
            crate::numstr::lemma_pow10_values();
        }
        x
    } else {
        proof {
            if dot is Some {
                assert(fr.len() == 0);
                assert(fr + crate::numstr::zeros(6) =~= crate::numstr::zeros(6));
                crate::numstr::lemma_zeros_val(6);
                assert(frac_micro_of(fr) == 0);
            }
        }
        0
    };
    let micro = whole * 1_000_000 + frac;
    if micro > u64::MAX as u128 {
        return None;
    }
    Some(micro as u64)
}

/// Reads a display amount `whole[.frac]` as micro-USDC, capped at `u64::MAX`;
/// unreadable input reads as zero.
pub fn parse_display_micro(s: &str) -> (r: u64)
    ensures
        r as nat == display_micro_of(s@, u64::MAX as nat),
{
    match parse_display_micro_checked(s) {
        Some(x) => x,
        None => 0,
    }
}

/// Price of a fill in micro-USDC per token, rounded to nearest: zero when no
/// tokens moved.
pub open spec fn price_micro_of(usdc: nat, token: nat) -> nat {
    if token == 0 {
        0
    } else {
        let p = usdc * 1_000_000;
        p / token + if 2 * (p % token) >= token {
            1nat
        } else {
            0nat
        }
    }
}

/// Largest raw USDC amount whose price can be computed exactly.
pub const PRICE_USDC_CAP: u128 = u128::MAX / 1_000_000;

pub fn price_micro(usdc: u128, token: u128) -> (r: u128)
    requires
        usdc <= PRICE_USDC_CAP,
    ensures
        r as nat == price_micro_of(usdc as nat, token as nat),
{
    if token == 0 {
        return 0;
    }
    let p = usdc * 1_000_000;
    let q = p / token;
    let rem = p % token;
    if rem >= token - rem {
        q + 1
    } else {
        q
    }
}

} // verus!
