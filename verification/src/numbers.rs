//! Decimal integers: parsing sector/bucket counts and rendering metric
//! values.

use vstd::prelude::*;

verus! {

pub open spec fn is_digit(c: char) -> bool {
    '0' <= c && c <= '9'
}

pub open spec fn digit_val(c: char) -> nat
    recommends
        is_digit(c),
{
    ((c as int) - ('0' as int)) as nat
}

pub open spec fn all_digits(s: Seq<char>) -> bool {
    forall|i: int| 0 <= i < s.len() ==> is_digit(s[i])
}

/// Value of a string of decimal digits, most significant first.
pub open spec fn digits_val(s: Seq<char>) -> nat
    decreases s.len(),
{
    if s.len() == 0 {
        0
    } else {
        digits_val(s.drop_last()) * 10 + digit_val(s.last())
    }
}

/// The digits of a non-negative decimal numeral, after an optional leading
/// plus sign.
pub open spec fn uint_body(s: Seq<char>) -> Seq<char> {
    if s.len() > 0 && s[0] == '+' {
        s.skip(1)
    } else {
        s
    }
}

/// Whether `s` is a well-formed non-negative decimal numeral.
pub open spec fn is_uint_str(s: Seq<char>) -> bool {
    uint_body(s).len() > 0 && all_digits(uint_body(s))
}

/// The numeric value of a well-formed numeral.
pub open spec fn uint_val(s: Seq<char>) -> nat
    recommends
        is_uint_str(s),
{
    digits_val(uint_body(s))
}

/// Whether `s` is a numeral whose value a `u64` can hold.
pub open spec fn is_u64_str(s: Seq<char>) -> bool {
    is_uint_str(s) && uint_val(s) <= u64::MAX
}

/// A digit string is worth at least any of its prefixes.
proof fn lemma_digits_val_prefix_le(s: Seq<char>, i: int)
    requires
        0 <= i <= s.len(),
    ensures
        digits_val(s.take(i)) <= digits_val(s),
    decreases s.len() - i,
{
    if i == s.len() {
        assert(s.take(i) =~= s);
    } else {
        assert(s.take(i + 1).drop_last() =~= s.take(i));
        assert(s.take(i + 1).last() == s[i]);
        assert(digits_val(s.take(i)) <= digits_val(s.take(i)) * 10 + digit_val(s[i]))
            by (nonlinear_arith);
        lemma_digits_val_prefix_le(s, i + 1);
    }
}

/// Parses a non-negative decimal numeral (optional leading `+`), as the
/// device tables and directory suffixes spell counts. Returns `None` on a
/// malformed numeral or one too large for a `u64`.
pub fn parse_u64(v: &Vec<char>) -> (r: Option<u64>)
    ensures
        is_u64_str(v@) ==> r == Some(uint_val(v@) as u64),
        !is_u64_str(v@) ==> r is None,
{
    let ghost s = v@;
    let mut start: usize = 0;
    if v.len() > 0 && v[0] == '+' {
        start = 1;
    }
    let ghost b = uint_body(s);
    proof {
        assert(b =~= s.skip(start as int));
    }
    if start == v.len() {
        // empty digit part
        return None;
    }
    let mut acc: u64 = 0;
    let mut i: usize = start;
    while i < v.len()
        invariant
            start <= i <= v.len(),
            b == uint_body(s),
            b == s.skip(start as int),
            b.len() == v.len() - start,
            s == v@,
            forall|k: int| 0 <= k < i - start ==> is_digit(b[k]),
            acc == digits_val(b.take(i - start)),
        decreases v.len() - i,
    {
        let c = v[i];
        if !('0' <= c && c <= '9') {
            proof {
                assert(b[i - start] == s[i as int]);
                assert(!all_digits(b));
            }
            return None;
        }
        let d: u64 = (c as u64) - 48;
        proof {
            assert(d == digit_val(c));
        }
        if acc > (u64::MAX - d) / 10 {
            // The value read so far already overflows a u64, so the whole
            // numeral does too.
            proof {
                let k = i - start;
                assert(b.take(k + 1).drop_last() =~= b.take(k));
                assert(b.take(k + 1).last() == b[k]);
                assert(b[k] == s[i as int]);
                assert(acc * 10 + d > u64::MAX) by (nonlinear_arith)
                    requires
                        acc > (u64::MAX - d) / 10,
                        d <= 9,
                        acc >= 0,
                ;
                lemma_digits_val_prefix_le(b, k + 1);
                assert(digits_val(b) > u64::MAX);
            }
            return None;
        }
        proof {
            assert(acc * 10 + d <= u64::MAX) by (nonlinear_arith)
                requires
                    acc <= (u64::MAX - d) / 10,
                    d <= 9,
                    acc >= 0,
            ;
            let k = i - start;
            assert(b.take(k + 1).drop_last() =~= b.take(k));
            assert(b.take(k + 1).last() == b[k]);
            assert(b[k] == s[i as int]);
        }
        acc = acc * 10 + d;
        i = i + 1;
    }
    proof {
        assert(b.take(v@.len() - start) =~= b);
        assert(all_digits(b));
        assert(is_uint_str(s));
        assert(uint_val(s) == acc);
    }
    Some(acc)
}

/// The character for one decimal digit.
pub open spec fn dec_digit_char(d: nat) -> char
    recommends
        d < 10,
{
    (d + 48) as char
}

/// The decimal numeral of `n`, without sign or padding.
pub open spec fn dec_str(n: nat) -> Seq<char>
    decreases n,
{
    if n < 10 {
        seq![dec_digit_char(n)]
    } else {
        dec_str(n / 10).push(dec_digit_char(n % 10))
    }
}

fn dec_digit(d: u8) -> (c: char)
    requires
        d < 10,
    ensures
        c == dec_digit_char(d as nat),
{
    (d + 48) as char
}

fn push_dec_u128(n: u128, out: &mut Vec<char>)
    ensures
        final(out)@ == old(out)@ + dec_str(n as nat),
    decreases n,
{
    if n < 10 {
        out.push(dec_digit(n as u8));
        proof {
            assert(out@ =~= old(out)@ + dec_str(n as nat));
        }
    } else {
        push_dec_u128(n / 10, out);
        out.push(dec_digit((n % 10) as u8));
        proof {
            assert(out@ =~= old(out)@ + dec_str(n as nat));
        }
    }
}

/// The decimal numeral of `n`.
pub fn u128_to_dec_chars(n: u128) -> (r: Vec<char>)
    ensures
        r@ == dec_str(n as nat),
{
    let mut r: Vec<char> = Vec::new();
    push_dec_u128(n, &mut r);
    proof {
        assert(r@ =~= dec_str(n as nat));
    }
    r
}

} // verus!
