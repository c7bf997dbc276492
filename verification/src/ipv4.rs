//! Dotted-quad IPv4 address literals: the grammar, and a parser proved to
//! accept exactly that grammar.

use crate::text::{
    dec_value, digit_val, is_digit_char, lemma_dec_value_one, lemma_dec_value_three,
    lemma_dec_value_two,
};
use vstd::prelude::*;

verus! {

/// An IPv4 address as four plain octets, `a.b.c.d`.
#[derive(Clone, Copy, PartialEq, Eq, Structural, Debug)]
pub struct Ipv4Address {
    pub a: u8,
    pub b: u8,
    pub c: u8,
    pub d: u8,
}

/// `s` is the text of one address octet: one to three decimal digits, no
/// leading zero, value at most 255.
pub open spec fn is_octet_text(s: Seq<char>) -> bool {
    &&& 1 <= s.len() <= 3
    &&& (forall|i: int| 0 <= i < s.len() ==> is_digit_char(#[trigger] s[i]))
    &&& (s.len() > 1 ==> s[0] != '0')
    &&& dec_value(s) <= 255
}

/// The dots of a dotted quad stand at `i`, `j` and `k`, and the four texts
/// between them are octet texts.
pub open spec fn ipv4_split_at(s: Seq<char>, i: int, j: int, k: int) -> bool {
    &&& 0 <= i < j < k < s.len()
    &&& s[i] == '.'
    &&& s[j] == '.'
    &&& s[k] == '.'
    &&& is_octet_text(s.subrange(0, i))
    &&& is_octet_text(s.subrange(i + 1, j))
    &&& is_octet_text(s.subrange(j + 1, k))
    &&& is_octet_text(s.subrange(k + 1, s.len() as int))
}

/// `s` is a syntactically valid dotted-quad IPv4 literal.
pub open spec fn is_ipv4_literal(s: Seq<char>) -> bool {
    exists|i: int, j: int, k: int| ipv4_split_at(s, i, j, k)
}

/// The address a valid dotted-quad literal denotes.
pub open spec fn ipv4_octets(s: Seq<char>) -> Ipv4Address
    recommends
        is_ipv4_literal(s),
{
    let (i, j, k) = choose|i: int, j: int, k: int| ipv4_split_at(s, i, j, k);
    Ipv4Address {
        a: dec_value(s.subrange(0, i)) as u8,
        b: dec_value(s.subrange(i + 1, j)) as u8,
        c: dec_value(s.subrange(j + 1, k)) as u8,
        d: dec_value(s.subrange(k + 1, s.len() as int)) as u8,
    }
}

/// Where a greedy scan for one octet starting at `from` stops, and the value
/// it reads: up to three digits, but a leading `0` only ever stands alone.
pub open spec fn spec_scan_octet(s: Seq<char>, from: int) -> Option<(u32, int)> {
    if 0 <= from < s.len() && is_digit_char(s[from]) {
        if s[from] == '0' {
            Some((0u32, from + 1))
        } else if from + 1 < s.len() && is_digit_char(s[from + 1]) {
            if from + 2 < s.len() && is_digit_char(s[from + 2]) {
                Some(
                    (
                        (digit_val(s[from]) * 100 + digit_val(s[from + 1]) * 10 + digit_val(
                            s[from + 2],
                        )) as u32,
                        from + 3,
                    ),
                )
            } else {
                Some(((digit_val(s[from]) * 10 + digit_val(s[from + 1])) as u32, from + 2))
            }
        } else {
            Some((digit_val(s[from]) as u32, from + 1))
        }
    } else {
        None
    }
}

/// What a successful octet scan guarantees: the scanned range holds only
/// digits, a leading zero stands alone, and the value is the range's decimal
/// value; if that value is at most 255 the range is a full octet text.
pub proof fn lemma_scan_octet_correct(s: Seq<char>, from: int, v: u32, end: int)
    requires
        spec_scan_octet(s, from) == Some((v, end)),
    ensures
        0 <= from < end <= s.len(),
        1 <= end - from <= 3,
        forall|m: int| from <= m < end ==> is_digit_char(#[trigger] s[m]),
        end - from > 1 ==> s[from] != '0',
        v == dec_value(s.subrange(from, end)),
        v <= 255 ==> is_octet_text(s.subrange(from, end)),
{
    let seg = s.subrange(from, end);
    if s[from] == '0' {
        assert(seg.len() == 1);
        lemma_dec_value_one(seg);
        assert(digit_val('0') == 0);
    } else if from + 1 < s.len() && is_digit_char(s[from + 1]) {
        if from + 2 < s.len() && is_digit_char(s[from + 2]) {
            assert(seg.len() == 3);
            lemma_dec_value_three(seg);
        } else {
            assert(seg.len() == 2);
            lemma_dec_value_two(seg);
        }
    } else {
        assert(seg.len() == 1);
        lemma_dec_value_one(seg);
    }
    assert forall|m: int| from <= m < end implies is_digit_char(#[trigger] s[m]) by {
        assert(s[m] == seg[m - from]);
    }
    if v <= 255 {
        assert forall|m: int| 0 <= m < seg.len() implies is_digit_char(#[trigger] seg[m]) by {
            assert(seg[m] == s[m + from]);
        }
    }
}

/// The octet scan is complete: on a well-formed octet text that runs up to
/// the end of the string or up to a non-digit, it stops exactly there and
/// reads exactly that text's value.
pub proof fn lemma_scan_octet_complete(s: Seq<char>, from: int, end: int)
    requires
        0 <= from < end <= s.len(),
        is_octet_text(s.subrange(from, end)),
        end == s.len() || !is_digit_char(s[end]),
    ensures
        spec_scan_octet(s, from) == Some((dec_value(s.subrange(from, end)) as u32, end)),
{
    let seg = s.subrange(from, end);
    assert(seg[0] == s[from]);
    assert(is_digit_char(s[from]));
    if seg.len() == 1 {
        lemma_dec_value_one(seg);
    } else if seg.len() == 2 {
        assert(seg[1] == s[from + 1]);
        lemma_dec_value_two(seg);
    } else {
        assert(seg[1] == s[from + 1]);
        assert(seg[2] == s[from + 2]);
        lemma_dec_value_three(seg);
    }
}

/// A string splits as a dotted quad in at most one way: octet texts hold no
/// dot, so the three dots of any split are the string's only dots.
pub proof fn lemma_ipv4_split_unique(
    s: Seq<char>,
    i1: int,
    j1: int,
    k1: int,
    i2: int,
    j2: int,
    k2: int,
)
    requires
        ipv4_split_at(s, i1, j1, k1),
        ipv4_split_at(s, i2, j2, k2),
    ensures
        i1 == i2 && j1 == j2 && k1 == k2,
{
    assert(!is_digit_char('.'));
    if i1 < i2 {
        assert(is_digit_char(s.subrange(0, i2)[i1]));
        assert(s.subrange(0, i2)[i1] == s[i1]);
    }
    if i2 < i1 {
        assert(is_digit_char(s.subrange(0, i1)[i2]));
        assert(s.subrange(0, i1)[i2] == s[i2]);
    }
    if j1 < j2 {
        assert(is_digit_char(s.subrange(i2 + 1, j2)[j1 - i2 - 1]));
        assert(s.subrange(i2 + 1, j2)[j1 - i2 - 1] == s[j1]);
    }
    if j2 < j1 {
        assert(is_digit_char(s.subrange(i1 + 1, j1)[j2 - i1 - 1]));
        assert(s.subrange(i1 + 1, j1)[j2 - i1 - 1] == s[j2]);
    }
    if k1 < k2 {
        assert(is_digit_char(s.subrange(j2 + 1, k2)[k1 - j2 - 1]));
        assert(s.subrange(j2 + 1, k2)[k1 - j2 - 1] == s[k1]);
    }
    if k2 < k1 {
        assert(is_digit_char(s.subrange(j1 + 1, k1)[k2 - j1 - 1]));
        assert(s.subrange(j1 + 1, k1)[k2 - j1 - 1] == s[k2]);
    }
}

/// On a valid dotted-quad literal, all four octet scans succeed, each
/// stopping at the following dot (or at the end), each reading a value of at
/// most 255.
pub proof fn lemma_ipv4_scan_all(s: Seq<char>, i: int, j: int, k: int)
    requires
        ipv4_split_at(s, i, j, k),
    ensures
        spec_scan_octet(s, 0) == Some((dec_value(s.subrange(0, i)) as u32, i)),
        spec_scan_octet(s, i + 1) == Some((dec_value(s.subrange(i + 1, j)) as u32, j)),
        spec_scan_octet(s, j + 1) == Some((dec_value(s.subrange(j + 1, k)) as u32, k)),
        spec_scan_octet(s, k + 1) == Some(
            (dec_value(s.subrange(k + 1, s.len() as int)) as u32, s.len() as int),
        ),
        dec_value(s.subrange(0, i)) <= 255,
        dec_value(s.subrange(i + 1, j)) <= 255,
        dec_value(s.subrange(j + 1, k)) <= 255,
        dec_value(s.subrange(k + 1, s.len() as int)) <= 255,
{
    assert(!is_digit_char('.'));
    lemma_scan_octet_complete(s, 0, i);
    lemma_scan_octet_complete(s, i + 1, j);
    lemma_scan_octet_complete(s, j + 1, k);
    lemma_scan_octet_complete(s, k + 1, s.len() as int);
}

/// Greedily scans one octet of up to three digits starting at `from`.
fn scan_octet(s: &str, from: usize) -> (r: Option<(u32, usize)>)
    requires
        from as int <= s@.len(),
    ensures
        match r {
            Some(p) => spec_scan_octet(s@, from as int) == Some((p.0, p.1 as int)) && from < p.1
                <= s@.len(),
            None => spec_scan_octet(s@, from as int) is None,
        },
{
    let n = s.unicode_len();
    if from >= n {
        return None;
    }
    let u0 = s.get_char(from) as u32;
    if u0 < 48 || u0 > 57 {
        return None;
    }
    if u0 == 48 {
        return Some((0, from + 1));
    }
    if from + 1 < n {
        let u1 = s.get_char(from + 1) as u32;
        if 48 <= u1 && u1 <= 57 {
            if from + 2 < n {
                let u2 = s.get_char(from + 2) as u32;
                if 48 <= u2 && u2 <= 57 {
                    return Some(((u0 - 48) * 100 + (u1 - 48) * 10 + (u2 - 48), from + 3));
                }
            }
            return Some(((u0 - 48) * 10 + (u1 - 48), from + 2));
        }
    }
    Some((u0 - 48, from + 1))
}

/// Parses a dotted-quad IPv4 literal, accepting exactly the strings of
/// `is_ipv4_literal` and returning the address they denote.
pub fn parse_ipv4(s: &str) -> (r: Option<Ipv4Address>)
    ensures
        match r {
            Some(addr) => is_ipv4_literal(s@) && addr == ipv4_octets(s@),
            None => !is_ipv4_literal(s@),
        },
{
    let n = s.unicode_len();
    let (v1, p1) = match scan_octet(s, 0) {
        Some(p) => p,
        None => {
            proof {
                if is_ipv4_literal(s@) {
                    let (i, j, k) = choose|i: int, j: int, k: int| ipv4_split_at(s@, i, j, k);
                    lemma_ipv4_scan_all(s@, i, j, k);
                    assert(false);
                }
            }
            return None;
        },
    };
    if v1 > 255 || p1 >= n || s.get_char(p1) != '.' {
        proof {
            if is_ipv4_literal(s@) {
                let (i, j, k) = choose|i: int, j: int, k: int| ipv4_split_at(s@, i, j, k);
                lemma_ipv4_scan_all(s@, i, j, k);
                assert(false);
            }
        }
        return None;
    }
    let (v2, p2) = match scan_octet(s, p1 + 1) {
        Some(p) => p,
        None => {
            proof {
                if is_ipv4_literal(s@) {
                    let (i, j, k) = choose|i: int, j: int, k: int| ipv4_split_at(s@, i, j, k);
                    lemma_ipv4_scan_all(s@, i, j, k);
                    assert(false);
                }
            }
            return None;
        },
    };
    if v2 > 255 || p2 >= n || s.get_char(p2) != '.' {
        proof {
            if is_ipv4_literal(s@) {
                let (i, j, k) = choose|i: int, j: int, k: int| ipv4_split_at(s@, i, j, k);
                lemma_ipv4_scan_all(s@, i, j, k);
                assert(false);
            }
        }
        return None;
    }
    let (v3, p3) = match scan_octet(s, p2 + 1) {
        Some(p) => p,
        None => {
            proof {
                if is_ipv4_literal(s@) {
                    let (i, j, k) = choose|i: int, j: int, k: int| ipv4_split_at(s@, i, j, k);
                    lemma_ipv4_scan_all(s@, i, j, k);
                    assert(false);
                }
            }
            return None;
        },
    };
    if v3 > 255 || p3 >= n || s.get_char(p3) != '.' {
        proof {
            if is_ipv4_literal(s@) {
                let (i, j, k) = choose|i: int, j: int, k: int| ipv4_split_at(s@, i, j, k);
                lemma_ipv4_scan_all(s@, i, j, k);
                assert(false);
            }
        }
        return None;
    }
    let (v4, p4) = match scan_octet(s, p3 + 1) {
        Some(p) => p,
        None => {
            proof {
                if is_ipv4_literal(s@) {
                    let (i, j, k) = choose|i: int, j: int, k: int| ipv4_split_at(s@, i, j, k);
                    lemma_ipv4_scan_all(s@, i, j, k);
                    assert(false);
                }
            }
            return None;
        },
    };
    if v4 > 255 || p4 != n {
        proof {
            if is_ipv4_literal(s@) {
                let (i, j, k) = choose|i: int, j: int, k: int| ipv4_split_at(s@, i, j, k);
                lemma_ipv4_scan_all(s@, i, j, k);
                assert(false);
            }
        }
        return None;
    }
    proof {
        lemma_scan_octet_correct(s@, 0, v1, p1 as int);
        lemma_scan_octet_correct(s@, p1 + 1, v2, p2 as int);
        lemma_scan_octet_correct(s@, p2 + 1, v3, p3 as int);
        lemma_scan_octet_correct(s@, p3 + 1, v4, p4 as int);
        assert(ipv4_split_at(s@, p1 as int, p2 as int, p3 as int));
        let (ci, cj, ck) = choose|i: int, j: int, k: int| ipv4_split_at(s@, i, j, k);
        lemma_ipv4_split_unique(s@, p1 as int, p2 as int, p3 as int, ci, cj, ck);
    }
    Some(Ipv4Address { a: v1 as u8, b: v2 as u8, c: v3 as u8, d: v4 as u8 })
}

} // verus!
