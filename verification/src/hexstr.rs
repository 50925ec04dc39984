//! Hexadecimal strings: digit values, byte decoding, and bounded integer
//! parsing. Topics, log data and block numbers arrive as `0x`-prefixed hex.

use vstd::prelude::*;

verus! {

/// Value of one hex digit, or 16 for any other character.
pub open spec fn hex_val(c: char) -> nat {
    if 48 <= c as u32 <= 57 {
        (c as u32 - 48) as nat
    } else if 97 <= c as u32 <= 102 {
        (c as u32 - 87) as nat
    } else if 65 <= c as u32 <= 70 {
        (c as u32 - 55) as nat
    } else {
        16
    }
}

pub open spec fn is_hex_digit(c: char) -> bool {
    hex_val(c) < 16
}

pub open spec fn all_hex(s: Seq<char>) -> bool {
    forall|j: int| 0 <= j < s.len() ==> is_hex_digit(#[trigger] s[j])
}

/// Numeric value of a hex digit string, most significant digit first.
pub open spec fn hex_num_val(s: Seq<char>) -> nat
    decreases s.len(),
{
    if s.len() == 0 {
        0
    } else {
        hex_num_val(s.drop_last()) * 16 + hex_val(s.last())
    }
}

/// The bytes a hex string encodes: one byte per digit pair. `None` when the
/// length is odd or a character is not a hex digit.
pub open spec fn hex_bytes_of(s: Seq<char>) -> Option<Seq<u8>> {
    if s.len() % 2 == 0 && all_hex(s) {
        Some(
            Seq::new(
                (s.len() / 2) as nat,
                |i: int| (hex_val(s[2 * i]) * 16 + hex_val(s[2 * i + 1])) as u8,
            ),
        )
    } else {
        None
    }
}

/// Reads one character's hex value; 16 signals a bad digit.
pub fn hex_digit(c: char) -> (r: u8)
    ensures
        r as nat == hex_val(c),
{
    let u = c as u32;
    if 48 <= u && u <= 57 {
        (u - 48) as u8
    } else if 97 <= u && u <= 102 {
        (u - 87) as u8
    } else if 65 <= u && u <= 70 {
        (u - 55) as u8
    } else {
        16
    }
}

/// Decodes a hex character string to bytes.
pub fn decode_hex_chars(v: &Vec<char>) -> (r: Option<Vec<u8>>)
    ensures
        match r {
            Some(b) => hex_bytes_of(v@) == Some(b@),
            None => hex_bytes_of(v@) is None,
        },
{
    let n = v.len();
    if n % 2 != 0 {
        return None;
    }
    let mut out: Vec<u8> = Vec::new();
    let mut i: usize = 0;
    while i < n
        invariant
            n == v@.len(),
            n % 2 == 0,
            i <= n,
            i % 2 == 0,
            forall|j: int| 0 <= j < i ==> is_hex_digit(#[trigger] v@[j]),
            out@.len() == i / 2,
            forall|k: int|
                0 <= k < i / 2 ==> out@[k] == (hex_val(v@[2 * k]) * 16 + hex_val(
                    v@[2 * k + 1],
                )) as u8,
        decreases n - i,
    {
        let hi = hex_digit(v[i]);
        let lo = hex_digit(v[i + 1]);
        if hi >= 16 || lo >= 16 {
            return None;
        }
        out.push(hi * 16 + lo);
        i = i + 2;
    }
    proof {
        let b = hex_bytes_of(v@).unwrap();
        assert(out@ =~= b);
    }
    Some(out)
}

/// Reads a hex digit string as a number. `None` when empty, malformed, or
/// over the cap.
pub fn parse_hex_capped(v: &Vec<char>, from: usize, to: usize, cap: u128) -> (r: Option<u128>)
    requires
        from <= to <= v@.len(),
    ensures
        ({
            let s = v@.subrange(from as int, to as int);
            match r {
                Some(n) => s.len() > 0 && all_hex(s) && n == hex_num_val(s) && n <= cap,
                None => s.len() == 0 || !all_hex(s) || hex_num_val(s) > cap,
            }
        }),
{
    let ghost s = v@.subrange(from as int, to as int);
    if from == to {
        return None;
    }
    let mut val: u128 = 0;
    let mut i: usize = from;
    while i < to
        invariant
            from <= i <= to <= v@.len(),
            s == v@.subrange(from as int, to as int),
            all_hex(v@.subrange(from as int, i as int)),
            val == hex_num_val(v@.subrange(from as int, i as int)),
            val <= cap,
        decreases to - i,
    {
        let d = hex_digit(v[i]) as u128;
        if d >= 16 {
            proof {
                assert(s[i - from] == v@[i as int]);
                assert(!is_hex_digit(s[i - from]));
            }
            return None;
        }
        proof {
            assert(v@.subrange(from as int, i + 1).drop_last() =~= v@.subrange(
                from as int,
                i as int,
            ));
            assert(v@.subrange(from as int, i + 1).last() == v@[i as int]);
        }
        if d > cap || val > (cap - d) / 16 {
            proof {
                let next = hex_num_val(v@.subrange(from as int, i + 1));
                assert(next == val * 16 + d);
                if d <= cap {
                    let q = (cap - d) / 16;
                    assert(cap - d == 16 * q + ((cap - d) % 16));
                    assert(val * 16 >= (q + 1) * 16) by (nonlinear_arith)
                        requires
                            val >= q + 1,
                    ;
                    assert(next > cap);
                } else {
                    assert(next > cap);
                }
                assert(s.subrange(0, (i + 1 - from) as int) =~= v@.subrange(from as int, i + 1));
                lemma_hex_num_val_mono(s, (i + 1 - from) as int);
            }
            return None;
        }
        proof {
            let q = (cap - d) / 16;
            assert(cap - d == 16 * q + ((cap - d) % 16));
            assert(val * 16 <= q * 16) by (nonlinear_arith)
                requires
                    val <= q,
            ;
        }
        val = val * 16 + d;
        i = i + 1;
    }
    proof {
        assert(v@.subrange(from as int, to as int) =~= s);
    }
    Some(val)
}

/// A hex string's value only grows as the string extends.
pub proof fn lemma_hex_num_val_mono(s: Seq<char>, i: int)
    requires
        0 <= i <= s.len(),
    ensures
        hex_num_val(s) >= hex_num_val(s.subrange(0, i)),
    decreases s.len() - i,
{
    if i == s.len() {
        assert(s.subrange(0, i) =~= s);
    } else {
        lemma_hex_num_val_mono(s, i + 1);
        assert(s.subrange(0, i + 1).drop_last() =~= s.subrange(0, i));
        assert(hex_num_val(s.subrange(0, i + 1)) == hex_num_val(s.subrange(0, i)) * 16 + hex_val(
            s.subrange(0, i + 1).last(),
        ));
    }
}

/// Hex rendering of one byte, lowercase, two digits.
pub open spec fn hex_char_of(d: nat) -> char {
    if d == 0 {
        '0'
    } else if d == 1 {
        '1'
    } else if d == 2 {
        '2'
    } else if d == 3 {
        '3'
    } else if d == 4 {
        '4'
    } else if d == 5 {
        '5'
    } else if d == 6 {
        '6'
    } else if d == 7 {
        '7'
    } else if d == 8 {
        '8'
    } else if d == 9 {
        '9'
    } else if d == 10 {
        'a'
    } else if d == 11 {
        'b'
    } else if d == 12 {
        'c'
    } else if d == 13 {
        'd'
    } else if d == 14 {
        'e'
    } else {
        'f'
    }
}

/// Lowercase hex encoding of bytes: two digits per byte.
pub open spec fn hex_of_bytes(b: Seq<u8>) -> Seq<char> {
    Seq::new(2 * b.len(), |i: int| hex_char_of(if i % 2 == 0 {
        (b[i / 2] / 16) as nat
    } else {
        (b[i / 2] % 16) as nat
    }))
}

fn hex_char(d: u8) -> (c: char)
    requires
        d < 16,
    ensures
        c == hex_char_of(d as nat),
{
    match d {
        0 => '0',
        1 => '1',
        2 => '2',
        3 => '3',
        4 => '4',
        5 => '5',
        6 => '6',
        7 => '7',
        8 => '8',
        9 => '9',
        10 => 'a',
        11 => 'b',
        12 => 'c',
        13 => 'd',
        14 => 'e',
        _ => 'f',
    }
}

/// Encodes bytes as lowercase hex characters.
pub fn encode_hex_chars(b: &Vec<u8>) -> (r: Vec<char>)
    ensures
        r@ == hex_of_bytes(b@),
{
    let n = b.len();
    let mut out: Vec<char> = Vec::new();
    let mut i: usize = 0;
    while i < n
        invariant
            n == b@.len(),
            i <= n,
            out@.len() == 2 * i,
            forall|j: int| 0 <= j < 2 * i ==> out@[j] == hex_of_bytes(b@)[j],
        decreases n - i,
    {
        let byte = b[i];
        out.push(hex_char(byte / 16));
        out.push(hex_char(byte % 16));
        i = i + 1;
    }
    proof {
        assert(out@ =~= hex_of_bytes(b@));
    }
    out
}

} // verus!
