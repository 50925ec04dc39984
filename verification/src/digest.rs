//! Token-identifier encodings.
//!
//! A trader asset is a 256-bit integer that reaches the service in three
//! encodings: a full-precision decimal string, a lossy scientific-notation
//! string from float-truncated historical ingest, and the 15-character
//! significand digest used as the market-cache key. Two identifiers name the
//! same token exactly when their digests are equal.

use vstd::prelude::*;

use crate::numstr::{all_digits, dec_val, is_digit, zeros};

verus! {

/// Length of the significand digest used as the cache key.
pub const DIGEST_LEN: usize = 15;

pub open spec fn is_exp_marker(c: char) -> bool {
    c == 'e' || c == 'E'
}

/// Index of the first `e`/`E` at or after position `i`, if any.
pub open spec fn find_exp_from(s: Seq<char>, i: int) -> Option<int>
    decreases s.len() - i,
{
    if i < 0 || i >= s.len() {
        None
    } else if is_exp_marker(s[i]) {
        Some(i)
    } else {
        find_exp_from(s, i + 1)
    }
}

/// Index of the first `e`/`E` in `s`, if any.
pub open spec fn find_exp(s: Seq<char>) -> Option<int> {
    find_exp_from(s, 0)
}

/// `s` with every `.` removed.
pub open spec fn strip_dots(s: Seq<char>) -> Seq<char>
    decreases s.len(),
{
    if s.len() == 0 {
        Seq::empty()
    } else if s.last() == '.' {
        strip_dots(s.drop_last())
    } else {
        strip_dots(s.drop_last()).push(s.last())
    }
}

/// The significant digits of a token identifier: the string itself when it is
/// not in scientific notation, else the mantissa with the decimal point
/// removed.
pub open spec fn significand_of(s: Seq<char>) -> Seq<char> {
    match find_exp(s) {
        None => s,
        Some(i) => strip_dots(s.subrange(0, i)),
    }
}

/// The significand digest: the first `DIGEST_LEN` significant digits, or all
/// of them when there are fewer.
pub open spec fn digest_of(s: Seq<char>) -> Seq<char> {
    let sig = significand_of(s);
    if sig.len() >= DIGEST_LEN {
        sig.subrange(0, DIGEST_LEN as int)
    } else {
        sig
    }
}

/// Collects the characters of a string slice.
pub fn str_to_chars(s: &str) -> (v: Vec<char>)
    ensures
        v@ == s@,
{
    let n = s.unicode_len();
    let mut v: Vec<char> = Vec::new();
    let mut i: usize = 0;
    while i < n
        invariant
            n == s@.len(),
            i <= n,
            v@ == s@.subrange(0, i as int),
        decreases n - i,
    {
        v.push(s.get_char(i));
        i = i + 1;
    }
    assert(v@ =~= s@);
    v
}

/// Builds a `String` from a sequence of characters.
/// Relies on `String`'s `FromIterator` impl: collecting chars concatenates
/// exactly those chars, in order.
#[verifier::external_body]
pub fn chars_to_string(v: &Vec<char>) -> (s: String)
    ensures
        s@ == v@,
{
    v.iter().collect()
}

/// Position of the first `e`/`E` in `v`, if any.
pub fn find_exp_pos(v: &Vec<char>) -> (r: Option<usize>)
    ensures
        match r {
            Some(i) => i < v@.len() && find_exp(v@) == Some(i as int),
            None => find_exp(v@) is None,
        },
{
    let n = v.len();
    let mut i: usize = 0;
    while i < n
        invariant
            n == v@.len(),
            i <= n,
            find_exp(v@) == find_exp_from(v@, i as int),
        decreases n - i,
    {
        let c = v[i];
        if c == 'e' || c == 'E' {
            return Some(i);
        }
        i = i + 1;
    }
    None
}

/// Copies `v` leaving every `.` out.
pub fn remove_dots(v: &Vec<char>, upto: usize) -> (r: Vec<char>)
    requires
        upto <= v@.len(),
    ensures
        r@ == strip_dots(v@.subrange(0, upto as int)),
{
    let mut r: Vec<char> = Vec::new();
    let mut i: usize = 0;
    while i < upto
        invariant
            upto <= v@.len(),
            i <= upto,
            r@ == strip_dots(v@.subrange(0, i as int)),
        decreases upto - i,
    {
        let c = v[i];
        proof {
            assert(v@.subrange(0, i + 1).drop_last() =~= v@.subrange(0, i as int));
        }
        if c != '.' {
            r.push(c);
        }
        i = i + 1;
    }
    r
}

/// The significant digits of a token identifier, as characters.
pub fn significand_chars(v: &Vec<char>) -> (r: Vec<char>)
    ensures
        r@ == significand_of(v@),
{
    match find_exp_pos(v) {
        None => {
            let mut r: Vec<char> = Vec::new();
            let mut i: usize = 0;
            let n = v.len();
            while i < n
                invariant
                    n == v@.len(),
                    i <= n,
                    r@ == v@.subrange(0, i as int),
                decreases n - i,
            {
                r.push(v[i]);
                i = i + 1;
            }
            assert(r@ =~= v@);
            r
        },
        Some(i) => remove_dots(v, i),
    }
}

/// Extract the significant digits from a token identifier string: the string
/// unchanged when it is not in scientific notation, else the mantissa with
/// the decimal point removed.
pub fn significant_digits(id: &str) -> (r: String)
    ensures
        r@ == significand_of(id@),
{
    let v = str_to_chars(id);
    let sig = significand_chars(&v);
    chars_to_string(&sig)
}

/// Build a market-cache key: the first 15 significant digits of the token
/// identifier. Both the full-precision and the scientific-notation encoding
/// of one token map to the same key.
pub fn cache_key(token_id: &str) -> (r: String)
    ensures
        r@ == digest_of(token_id@),
{
    let v = str_to_chars(token_id);
    let sig = significand_chars(&v);
    if sig.len() >= DIGEST_LEN {
        let mut t: Vec<char> = Vec::new();
        let mut i: usize = 0;
        while i < DIGEST_LEN
            invariant
                sig@.len() >= DIGEST_LEN,
                i <= DIGEST_LEN,
                t@ == sig@.subrange(0, i as int),
            decreases DIGEST_LEN - i,
        {
            t.push(sig[i]);
            i = i + 1;
        }
        chars_to_string(&t)
    } else {
        chars_to_string(&sig)
    }
}

/// Largest decimal exponent an identifier may carry and still be expanded;
/// beyond it the historical float ingest overflowed and kept the string as is.
pub const MAX_EXPANSION_EXP: u128 = 308;

/// Index of the first `.` at or after position `i`, if any.
pub open spec fn find_dot_from(s: Seq<char>, i: int) -> Option<int>
    decreases s.len() - i,
{
    if i < 0 || i >= s.len() {
        None
    } else if s[i] == '.' {
        Some(i)
    } else {
        find_dot_from(s, i + 1)
    }
}

pub open spec fn is_sign(c: char) -> bool {
    c == '-' || c == '+'
}

/// A mantissa split into sign prefix, integer digits and fraction digits,
/// or `None` when it is not of that shape.
pub open spec fn parse_mantissa(m: Seq<char>) -> Option<(Seq<char>, Seq<char>, Seq<char>)> {
    let sl: int = if m.len() > 0 && is_sign(m[0]) {
        1
    } else {
        0
    };
    match find_dot_from(m, sl) {
        None => {
            let d = m.subrange(sl, m.len() as int);
            if d.len() > 0 && all_digits(d) {
                Some((m.subrange(0, sl), d, Seq::empty()))
            } else {
                None
            }
        },
        Some(k) => {
            let ip = m.subrange(sl, k);
            let fp = m.subrange(k + 1, m.len() as int);
            if all_digits(ip) && all_digits(fp) && ip.len() + fp.len() >= 1 {
                Some((m.subrange(0, sl), ip, fp))
            } else {
                None
            }
        },
    }
}

/// The value of an exponent part: optional `+`, then digits.
pub open spec fn parse_exp(e: Seq<char>) -> Option<nat> {
    let sl: int = if e.len() > 0 && e[0] == '+' {
        1
    } else {
        0
    };
    let d = e.subrange(sl, e.len() as int);
    if d.len() > 0 && all_digits(d) {
        Some(dec_val(d))
    } else {
        None
    }
}

/// The integer-string expansion of a scientific-notation identifier:
/// sign, then all mantissa digits, then the zeros the exponent calls for.
/// `None` when the string is not scientific notation that denotes an integer
/// within the expansion bound.
pub open spec fn sci_int_of(s: Seq<char>) -> Option<Seq<char>> {
    match find_exp(s) {
        None => None,
        Some(i) => match (parse_mantissa(s.subrange(0, i)), parse_exp(
            s.subrange(i + 1, s.len() as int),
        )) {
            (Some((sg, ip, fp)), Some(exp)) => if fp.len() <= exp <= MAX_EXPANSION_EXP {
                Some(sg + ip + fp + zeros((exp - fp.len()) as nat))
            } else {
                None
            },
            _ => None,
        },
    }
}

/// What `to_integer_id` returns: the expansion where one exists, else the
/// input unchanged.
pub open spec fn integer_id_of(s: Seq<char>) -> Seq<char> {
    match sci_int_of(s) {
        Some(t) => t,
        None => s,
    }
}

/// Position of the first `.` at or after `from`, if any.
pub fn find_dot_pos(v: &Vec<char>, from: usize) -> (r: Option<usize>)
    requires
        from <= v@.len(),
    ensures
        match r {
            Some(k) => from <= k < v@.len() && find_dot_from(v@, from as int) == Some(k as int),
            None => find_dot_from(v@, from as int) is None,
        },
{
    let n = v.len();
    let mut i: usize = from;
    while i < n
        invariant
            from <= i <= n,
            n == v@.len(),
            find_dot_from(v@, from as int) == find_dot_from(v@, i as int),
        decreases n - i,
    {
        if v[i] == '.' {
            return Some(i);
        }
        i = i + 1;
    }
    None
}

/// All characters of `v` in `[from, to)` are decimal digits.
pub fn check_all_digits(v: &Vec<char>, from: usize, to: usize) -> (r: bool)
    requires
        from <= to <= v@.len(),
    ensures
        r == all_digits(v@.subrange(from as int, to as int)),
{
    let ghost s = v@.subrange(from as int, to as int);
    let mut i: usize = from;
    while i < to
        invariant
            from <= i <= to <= v@.len(),
            s == v@.subrange(from as int, to as int),
            forall|j: int| 0 <= j < i - from ==> is_digit(#[trigger] s[j]),
        decreases to - i,
    {
        let u = v[i] as u32;
        if !(48 <= u && u <= 57) {
            proof {
                assert(s[i - from] == v@[i as int]);
            }
            return false;
        }
        proof {
            assert(s[i - from] == v@[i as int]);
        }
        i = i + 1;
    }
    true
}

/// Appends `v[from..to]` onto `out`.
pub fn push_range(out: &mut Vec<char>, v: &Vec<char>, from: usize, to: usize)
    requires
        from <= to <= v@.len(),
    ensures
        final(out)@ == old(out)@ + v@.subrange(from as int, to as int),
{
    let mut i: usize = from;
    while i < to
        invariant
            from <= i <= to <= v@.len(),
            out@ == old(out)@ + v@.subrange(from as int, i as int),
        decreases to - i,
    {
        out.push(v[i]);
        proof {
            assert(old(out)@ + v@.subrange(from as int, i + 1) =~= (old(out)@ + v@.subrange(
                from as int,
                i as int,
            )).push(v@[i as int]));
        }
        i = i + 1;
    }
}

/// Appends `n` zero characters onto `out`.
pub fn push_zeros(out: &mut Vec<char>, n: usize)
    ensures
        final(out)@ == old(out)@ + zeros(n as nat),
{
    let mut i: usize = 0;
    while i < n
        invariant
            i <= n,
            out@ == old(out)@ + zeros(i as nat),
        decreases n - i,
    {
        out.push('0');
        proof {
            assert(old(out)@ + zeros((i + 1) as nat) =~= (old(out)@ + zeros(i as nat)).push('0'));
        }
        i = i + 1;
    }
}

/// Convert a scientific-notation identifier to an integer string; identifiers
/// already in integer form, and strings that are not integral scientific
/// notation, come back unchanged. Lossy past the written digits, but the
/// significant digits — and so the digest — are preserved.
pub fn to_integer_id(id: &str) -> (r: String)
    ensures
        r@ == integer_id_of(id@),
{
    let v = str_to_chars(id);
    let epos = match find_exp_pos(&v) {
        None => {
            return id.to_owned();
        },
        Some(i) => i,
    };
    let ghost m = v@.subrange(0, epos as int);
    let ghost e = v@.subrange(epos + 1, v@.len() as int);
    proof {
        lemma_find_exp_in_range(v@, 0, epos as int);
    }

    // Mantissa: optional sign, digits, optional dot with fraction digits.
    let sl: usize = if v[0] == '-' || v[0] == '+' {
        1
    } else {
        0
    };
    proof {
        if sl == 1 {
            assert(!is_exp_marker(v@[0]));
            assert(epos >= 1);
            assert(m[0] == v@[0]);
        }
        assert(sl as int == mantissa_sign_len(m)) by {
            if m.len() > 0 {
                assert(m[0] == v@[0]);
            }
        }
    }
    if sl > epos {
        // A sign with the marker right behind it: no mantissa digits.
        assert(m.len() == 0 && sl == 1);
        assert(false);
    }
    let dotpos = find_dot_pos(&v, sl);
    proof {
        lemma_find_dot_prefix(v@, m, sl as int, epos as int);
        if find_dot_from(m, sl as int) is Some {
            lemma_find_dot_in_range(m, sl as int, find_dot_from(m, sl as int)->Some_0);
        }
        if find_dot_from(v@, sl as int) is Some {
            lemma_find_dot_in_range(v@, sl as int, find_dot_from(v@, sl as int)->Some_0);
        }
    }
    let (int_to, frac_from): (usize, usize) = match dotpos {
        Some(k) => {
            if k < epos {
                (k, k + 1)
            } else {
                (epos, epos)
            }
        },
        None => (epos, epos),
    };
    let frac_to = epos;
    let ghost has_dot = int_to < frac_from;
    proof {
        if has_dot {
            assert(find_dot_from(m, sl as int) == Some(int_to as int));
        } else {
            assert(find_dot_from(m, sl as int) is None);
        }
        assert(m.subrange(0, sl as int) =~= v@.subrange(0, sl as int));
        assert(m.subrange(sl as int, int_to as int) =~= v@.subrange(sl as int, int_to as int));
        assert(m.subrange(frac_from as int, m.len() as int) =~= v@.subrange(
            frac_from as int,
            frac_to as int,
        ));
    }
    let ok: bool = if int_to == frac_from {
        // No dot before the marker: the whole tail must be digits.
        sl < epos && check_all_digits(&v, sl, epos)
    } else {
        (sl < int_to || frac_from < frac_to) && check_all_digits(&v, sl, int_to)
            && check_all_digits(&v, frac_from, frac_to)
    };
    if !ok {
        assert(parse_mantissa(m) is None);
        return id.to_owned();
    }
    let ghost gsg = v@.subrange(0, sl as int);
    let ghost gip = v@.subrange(sl as int, int_to as int);
    let ghost gfp = v@.subrange(frac_from as int, frac_to as int);
    assert(parse_mantissa(m) == Some((gsg, gip, gfp)));

    // Exponent: optional plus, then digits, bounded by the expansion cap.
    let elen = v.len();
    let esl: usize = if epos + 1 < elen && v[epos + 1] == '+' {
        epos + 2
    } else {
        epos + 1
    };
    let ghost gd = e.subrange((esl - epos - 1) as int, e.len() as int);
    proof {
        if e.len() > 0 {
            assert(e[0] == v@[epos + 1]);
        }
        assert(gd =~= v@.subrange(esl as int, elen as int));
    }
    let exp = match crate::numstr::parse_dec_capped(&v, esl, elen, MAX_EXPANSION_EXP) {
        None => {
            assert(match parse_exp(e) {
                Some(x) => x > MAX_EXPANSION_EXP,
                None => true,
            });
            return id.to_owned();
        },
        Some(x) => x,
    };
    assert(parse_exp(e) == Some(exp as nat));

    let frac_len = frac_to - frac_from;
    if (frac_len as u128) > exp {
        return id.to_owned();
    }

    // Expansion: sign, integer digits, fraction digits, zeros.
    let mut out: Vec<char> = Vec::new();
    push_range(&mut out, &v, 0, sl);
    push_range(&mut out, &v, sl, int_to);
    push_range(&mut out, &v, frac_from, frac_to);
    push_zeros(&mut out, (exp - frac_len as u128) as usize);
    proof {
        assert(sci_int_of(id@) == Some(gsg + gip + gfp + zeros((exp - frac_len) as nat)));
        assert(out@ =~= gsg + gip + gfp + zeros((exp - frac_len) as nat));
    }
    chars_to_string(&out)
}

/// The sign-prefix length `parse_mantissa` uses.
pub open spec fn mantissa_sign_len(m: Seq<char>) -> int {
    if m.len() > 0 && is_sign(m[0]) {
        1
    } else {
        0
    }
}

/// A found exponent marker lies at or after the search start, on a marker.
proof fn lemma_find_exp_in_range(s: Seq<char>, i: int, k: int)
    requires
        0 <= i,
        find_exp_from(s, i) == Some(k),
    ensures
        i <= k < s.len(),
        is_exp_marker(s[k]),
    decreases s.len() - i,
{
    if i < s.len() && !is_exp_marker(s[i]) {
        lemma_find_exp_in_range(s, i + 1, k);
    }
}

/// Searching a prefix for a dot agrees with searching the whole string.
proof fn lemma_find_dot_prefix(v: Seq<char>, m: Seq<char>, i: int, end: int)
    requires
        0 <= i <= end <= v.len(),
        m == v.subrange(0, end),
    ensures
        match find_dot_from(m, i) {
            Some(k) => find_dot_from(v, i) == Some(k) && k < end,
            None => match find_dot_from(v, i) {
                Some(k) => k >= end,
                None => true,
            },
        },
    decreases end - i,
{
    if i < end {
        assert(m[i] == v[i]);
        if m[i] != '.' {
            lemma_find_dot_prefix(v, m, i + 1, end);
        }
    } else {
        if find_dot_from(v, i) is Some {
            lemma_find_dot_in_range(v, i, find_dot_from(v, i)->Some_0);
        }
    }
}

/// A string of sign, digit and zero characters holds no exponent marker.
proof fn lemma_find_exp_none(s: Seq<char>, i: int)
    requires
        0 <= i <= s.len(),
        forall|j: int| 0 <= j < s.len() ==> !is_exp_marker(#[trigger] s[j]),
    ensures
        find_exp_from(s, i) is None,
    decreases s.len() - i,
{
    if i < s.len() {
        lemma_find_exp_none(s, i + 1);
    }
}

/// Stripping dots distributes over concatenation.
proof fn lemma_strip_dots_concat(a: Seq<char>, b: Seq<char>)
    ensures
        strip_dots(a + b) == strip_dots(a) + strip_dots(b),
    decreases b.len(),
{
    if b.len() == 0 {
        assert(a + b =~= a);
        assert(strip_dots(b) =~= Seq::<char>::empty());
        assert(strip_dots(a) + strip_dots(b) =~= strip_dots(a));
    } else {
        lemma_strip_dots_concat(a, b.drop_last());
        assert((a + b).drop_last() =~= a + b.drop_last());
        assert((a + b).last() == b.last());
        if b.last() == '.' {
            assert(strip_dots(a + b) =~= strip_dots(a) + strip_dots(b));
        } else {
            assert(strip_dots(a + b) =~= strip_dots(a) + strip_dots(b));
        }
    }
}

/// A string without dots is unchanged by stripping.
proof fn lemma_strip_dots_id(s: Seq<char>)
    requires
        forall|j: int| 0 <= j < s.len() ==> #[trigger] s[j] != '.',
    ensures
        strip_dots(s) == s,
    decreases s.len(),
{
    if s.len() > 0 {
        lemma_strip_dots_id(s.drop_last());
        assert(strip_dots(s) =~= s);
    } else {
        assert(strip_dots(s) =~= s);
    }
}

/// Digest collision invariant: expanding a scientific-notation identifier to
/// integer form never changes its digest, whenever the identifier carries at
/// least a digest's worth of significant digits. (With fewer digits the
/// expansion appends zeros that become part of the shorter digest:
/// `1.5e3` expands to `1500`, whose digest differs from `15`.)
pub proof fn lemma_digest_of_expansion(s: Seq<char>)
    requires
        significand_of(s).len() >= DIGEST_LEN,
    ensures
        digest_of(integer_id_of(s)) == digest_of(s),
{
    match sci_int_of(s) {
        None => {},
        Some(t) => {
            let i = find_exp(s).unwrap();
            let m = s.subrange(0, i);
            let e = s.subrange(i + 1, s.len() as int);
            let (sg, ip, fp) = parse_mantissa(m).unwrap();
            let exp = parse_exp(e).unwrap();
            let z = zeros((exp - fp.len()) as nat);
            assert(t == sg + ip + fp + z);

            // Every character of the expansion is a sign, a digit or a zero,
            // so the expansion holds no exponent marker and is its own
            // significand.
            assert forall|j: int| 0 <= j < t.len() implies !is_exp_marker(#[trigger] t[j]) by {
                if j < sg.len() {
                    assert(t[j] == sg[j]);
                    assert(sg == m.subrange(
                        0,
                        if m.len() > 0 && is_sign(m[0]) {
                            1int
                        } else {
                            0int
                        },
                    ));
                } else if j < sg.len() + ip.len() {
                    assert(t[j] == ip[j - sg.len()]);
                    assert(is_digit(ip[j - sg.len()]));
                } else if j < sg.len() + ip.len() + fp.len() {
                    assert(t[j] == fp[j - sg.len() - ip.len()]);
                    assert(is_digit(fp[j - sg.len() - ip.len()]));
                } else {
                    assert(t[j] == z[j - sg.len() - ip.len() - fp.len()]);
                }
            }
            lemma_find_exp_none(t, 0);
            assert(significand_of(t) == t);

            // The significand of the scientific form is the mantissa without its dot:
            // exactly sign + integer digits + fraction digits.
            let sig = significand_of(s);
            assert(sig == strip_dots(m));
            lemma_mantissa_strip(m, sg, ip, fp);
            assert(sig == sg + ip + fp);

            // Both digests are the first DIGEST_LEN characters of sequences
            // that share the prefix `sig`, which is long enough.
            assert(t =~= sig + z);
            assert(t.len() >= sig.len() >= DIGEST_LEN);
            assert(t.subrange(0, DIGEST_LEN as int) =~= sig.subrange(0, DIGEST_LEN as int));
        },
    }
}

/// A parsed mantissa, stripped of dots, is its sign and digits.
proof fn lemma_mantissa_strip(m: Seq<char>, sg: Seq<char>, ip: Seq<char>, fp: Seq<char>)
    requires
        parse_mantissa(m) == Some((sg, ip, fp)),
    ensures
        strip_dots(m) == sg + ip + fp,
{
    let sl: int = if m.len() > 0 && is_sign(m[0]) {
        1
    } else {
        0
    };
    assert(sg == m.subrange(0, sl));
    assert forall|j: int| 0 <= j < sg.len() implies #[trigger] sg[j] != '.' by {
        assert(sg[j] == m[j]);
    }
    lemma_strip_dots_id(sg);
    assert forall|j: int| 0 <= j < ip.len() implies #[trigger] ip[j] != '.' by {
        assert(is_digit(ip[j]));
    }
    lemma_strip_dots_id(ip);
    assert forall|j: int| 0 <= j < fp.len() implies #[trigger] fp[j] != '.' by {
        assert(is_digit(fp[j]));
    }
    lemma_strip_dots_id(fp);
    match find_dot_from(m, sl) {
        None => {
            assert(m =~= sg + ip);
            lemma_strip_dots_concat(sg, ip);
            assert(fp =~= Seq::<char>::empty());
            assert(sg + ip + fp =~= sg + ip);
        },
        Some(k) => {
            lemma_find_dot_in_range(m, sl, k);
            let dot = seq!['.'];
            assert(m =~= sg + ip + dot + fp);
            lemma_strip_dots_concat(sg + ip + dot, fp);
            lemma_strip_dots_concat(sg + ip, dot);
            lemma_strip_dots_concat(sg, ip);
            assert(dot.last() == '.' && dot.drop_last().len() == 0);
            assert(strip_dots(dot.drop_last()) =~= Seq::<char>::empty());
            assert(strip_dots(dot) =~= Seq::<char>::empty());
            assert(strip_dots(sg) + strip_dots(ip) + strip_dots(dot) + strip_dots(fp) =~= sg + ip
                + fp);
        },
    }
}

/// A found dot lies at or after the search start, inside the string.
proof fn lemma_find_dot_in_range(s: Seq<char>, i: int, k: int)
    requires
        0 <= i,
        find_dot_from(s, i) == Some(k),
    ensures
        i <= k < s.len(),
        s[k] == '.',
    decreases s.len() - i,
{
    if i < s.len() && s[i] != '.' {
        lemma_find_dot_in_range(s, i + 1, k);
    }
}

} // verus!

