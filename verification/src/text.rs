//! Decimal text: digit characters, the value of a digit string, and parsing
//! of unsigned 32-bit integer literals.

use vstd::prelude::*;

verus! {

/// `c` is an ASCII decimal digit.
pub open spec fn is_digit_char(c: char) -> bool {
    48 <= c as u32 <= 57
}

/// The numeric value of a single decimal digit.
pub open spec fn digit_val(c: char) -> nat
    recommends
        is_digit_char(c),
{
    (c as u32 - 48) as nat
}

/// The value of a string of decimal digits, most significant first.
pub open spec fn dec_value(s: Seq<char>) -> nat
    decreases s.len(),
{
    if s.len() == 0 {
        0
    } else {
        dec_value(s.drop_last()) * 10 + digit_val(s.last())
    }
}

/// A digit string's value never shrinks as more digits are appended.
pub proof fn lemma_dec_value_prefix(s: Seq<char>, m: int)
    requires
        0 <= m <= s.len(),
    ensures
        dec_value(s) >= dec_value(s.take(m)),
    decreases s.len() - m,
{
    if m < s.len() {
        lemma_dec_value_prefix(s, m + 1);
        assert(s.take(m + 1).drop_last() =~= s.take(m));
        assert(dec_value(s.take(m + 1)) == dec_value(s.take(m)) * 10 + digit_val(s.take(m
            + 1).last()));
    } else {
        assert(s.take(m) =~= s);
    }
}

/// The value of a one-digit string.
pub proof fn lemma_dec_value_one(s: Seq<char>)
    requires
        s.len() == 1,
    ensures
        dec_value(s) == digit_val(s[0]),
{
    assert(s.drop_last().len() == 0);
    assert(dec_value(s.drop_last()) == 0);
}

/// The value of a two-digit string.
pub proof fn lemma_dec_value_two(s: Seq<char>)
    requires
        s.len() == 2,
    ensures
        dec_value(s) == digit_val(s[0]) * 10 + digit_val(s[1]),
{
    lemma_dec_value_one(s.drop_last());
}

/// The value of a three-digit string.
pub proof fn lemma_dec_value_three(s: Seq<char>)
    requires
        s.len() == 3,
    ensures
        dec_value(s) == digit_val(s[0]) * 100 + digit_val(s[1]) * 10 + digit_val(s[2]),
{
    lemma_dec_value_two(s.drop_last());
}

/// The digit part of an unsigned integer literal: everything after an
/// optional leading `+` sign.
pub open spec fn uint_digits(s: Seq<char>) -> Seq<char> {
    if s.len() > 0 && s[0] == '+' {
        s.skip(1)
    } else {
        s
    }
}

/// `s` is a valid unsigned 32-bit integer literal: at least one decimal
/// digit after an optional `+` sign, and a value that fits in 32 bits.
pub open spec fn is_u32_literal(s: Seq<char>) -> bool {
    let d = uint_digits(s);
    &&& d.len() > 0
    &&& (forall|i: int| 0 <= i < d.len() ==> is_digit_char(#[trigger] d[i]))
    &&& dec_value(d) <= u32::MAX
}

/// The value of an unsigned 32-bit integer literal.
pub open spec fn u32_literal_value(s: Seq<char>) -> nat
    recommends
        is_u32_literal(s),
{
    dec_value(uint_digits(s))
}

/// Parses an unsigned 32-bit integer literal, accepting exactly the strings
/// of `is_u32_literal` and returning their numeric value.
pub fn parse_u32(s: &str) -> (r: Option<u32>)
    ensures
        match r {
            Some(v) => is_u32_literal(s@) && v == u32_literal_value(s@),
            None => !is_u32_literal(s@),
        },
{
    let n = s.unicode_len();
    let mut i: usize = 0;
    if n > 0 && s.get_char(0) == '+' {
        i = 1;
    }
    let ghost off = i as int;
    let ghost d = uint_digits(s@);
    proof {
        assert(d =~= s@.skip(off));
    }
    if i >= n {
        return None;
    }
    let mut val: u64 = 0;
    while i < n
        invariant
            off <= i <= n,
            n == s@.len(),
            0 <= off <= 1,
            d == uint_digits(s@),
            d == s@.skip(off),
            forall|k: int| off <= k < i ==> is_digit_char(#[trigger] s@[k]),
            val == dec_value(s@.subrange(off, i as int)),
            val <= u32::MAX,
        decreases n - i,
    {
        let c = s.get_char(i);
        let u = c as u32;
        if u < 48 || u > 57 {
            proof {
                assert(!is_digit_char(d[i - off]));
            }
            return None;
        }
        proof {
            assert(s@.subrange(off, i + 1).drop_last() =~= s@.subrange(off, i as int));
            assert(s@.subrange(off, i + 1).last() == s@[i as int]);
        }
        val = val * 10 + (u - 48) as u64;
        i = i + 1;
        if val > 0xFFFF_FFFF {
            proof {
                assert(d.take(i - off) =~= s@.subrange(off, i as int));
                lemma_dec_value_prefix(d, i - off);
            }
            return None;
        }
    }
    proof {
        assert(s@.subrange(off, n as int) =~= d);
        assert forall|k: int| 0 <= k < d.len() implies is_digit_char(#[trigger] d[k]) by {
            assert(d[k] == s@[k + off]);
        }
    }
    Some(val as u32)
}

} // verus!
