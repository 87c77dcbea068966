//! The grammar of decimal numerals.
//!
//! ```text
//! numeral  ::= mantissa exponent?
//! mantissa ::= digit+ | digit+ '.' digit* | digit* '.' digit+
//! exponent ::= ('e' | 'E') digit+
//! ```
//!
//! A numeral denotes a number in decimal notation, and every numeral can be
//! read as a 64-bit floating-point number. The library keeps a number as the
//! text of its numeral.
use vstd::prelude::*;
use crate::chars::{decimal_digit, is_decimal_digit};

verus! {

/// Every byte of `s` is a decimal digit.
pub open spec fn all_digits(s: Seq<u8>) -> bool {
    forall|i: int| 0 <= i < s.len() ==> is_decimal_digit(#[trigger] s[i])
}

/// `s` is a mantissa whose integer part has `d` digits.
pub open spec fn is_mantissa_split(s: Seq<u8>, d: int) -> bool {
    &&& 0 <= d <= s.len()
    &&& all_digits(s.take(d))
    &&& if d == s.len() {
        d > 0
    } else {
        &&& s[d] == 0x2e
        &&& all_digits(s.skip(d + 1))
        &&& s.len() > 1
    }
}

/// `s` is a mantissa: digits, with at most one dot among them, and at least
/// one digit in all.
pub open spec fn is_mantissa(s: Seq<u8>) -> bool {
    exists|d: int| is_mantissa_split(s, d)
}

/// `s` is a numeral whose exponent letter stands at `e`.
pub open spec fn is_numeral_split(s: Seq<u8>, e: int) -> bool {
    &&& 0 <= e < s.len() - 1
    &&& (s[e] == 0x65 || s[e] == 0x45)
    &&& is_mantissa(s.take(e))
    &&& all_digits(s.skip(e + 1))
}

/// `s` is a decimal numeral: a mantissa, then possibly an exponent.
pub open spec fn is_numeral(s: Seq<u8>) -> bool {
    is_mantissa(s) || exists|e: int| is_numeral_split(s, e)
}

/// The end of the run of digits of `s` that starts at `from`.
fn digits_end(s: &Vec<u8>, from: usize) -> (end: usize)
    requires
        from <= s.len(),
    ensures
        from <= end <= s.len(),
        forall|i: int| from <= i < end ==> is_decimal_digit(#[trigger] s[i]),
        end < s.len() ==> !is_decimal_digit(s[end as int]),
{
    let mut end: usize = from;
    while end < s.len() && decimal_digit(s[end])
        invariant
            from <= end <= s.len(),
            forall|i: int| from <= i < end ==> is_decimal_digit(#[trigger] s[i]),
        decreases s.len() - end,
    {
        end += 1;
    }
    end
}

/// A mantissa has one split only: the integer part ends at the first byte
/// that is no digit.
proof fn lemma_mantissa_split_unique(s: Seq<u8>, d: int, a: int)
    requires
        is_mantissa_split(s, d),
        0 <= a <= s.len(),
        forall|i: int| 0 <= i < a ==> is_decimal_digit(#[trigger] s[i]),
        a < s.len() ==> !is_decimal_digit(s[a]),
    ensures
        d == a,
{
    if d < a {
        assert(is_decimal_digit(s[d]));
    } else if a < d {
        assert(s.take(d)[a] == s[a]);
    }
}

/// Tells whether `s` is a decimal numeral.
pub fn numeral(s: &Vec<u8>) -> (r: bool)
    ensures
        r == is_numeral(s@),
{
    let len = s.len();
    let a = digits_end(s, 0);
    let dotted = a < len && s[a] == 0x2e;
    let b = if dotted { digits_end(s, a + 1) } else { a };
    // the mantissa is s[0..b]; it holds a digit unless it is empty or a lone dot
    let some_digit = if dotted { b > 1 } else { b > 0 };
    let ghost m = s@.take(b as int);
    proof {
        if some_digit {
            assert(all_digits(m.take(a as int)));
            if dotted {
                assert forall|i: int| 0 <= i < m.skip(a + 1).len() implies is_decimal_digit(
                    #[trigger] m.skip(a + 1)[i],
                ) by {
                    assert(m.skip(a + 1)[i] == s[a + 1 + i]);
                }
            }
            assert(is_mantissa_split(m, a as int));
        } else {
            if is_mantissa(m) {
                let d = choose|d: int| is_mantissa_split(m, d);
                lemma_mantissa_split_unique(m, d, a as int);
            }
        }
        assert(some_digit == is_mantissa(m));
    }
    if b == len {
        proof {
            assert(m =~= s@);
            if exists|e: int| is_numeral_split(s@, e) {
                let e = choose|e: int| is_numeral_split(s@, e);
                // the exponent letter is neither a digit nor a dot
                if e < a {
                    assert(is_decimal_digit(s[e]));
                } else if e > a {
                    assert(is_decimal_digit(s[e]));
                }
                assert(false);
            }
        }
        return some_digit;
    }
    let lettered = s[b] == 0x65 || s[b] == 0x45;
    let c = if lettered { digits_end(s, b + 1) } else { b };
    let r = some_digit && lettered && b + 1 < len && c == len;
    proof {
        lemma_numeral_decided(s@, a as int, dotted, b as int, lettered, c as int, r);
    }
    r
}

/// What the scan of `numeral` has found decides whether `s` is a numeral,
/// where the mantissa does not reach the end of `s`.
proof fn lemma_numeral_decided(
    s: Seq<u8>,
    a: int,
    dotted: bool,
    b: int,
    lettered: bool,
    c: int,
    r: bool,
)
    requires
        0 <= a <= b < s.len(),
        forall|i: int| 0 <= i < a ==> is_decimal_digit(#[trigger] s[i]),
        !is_decimal_digit(s[a]),
        dotted == (s[a] == 0x2e),
        dotted ==> a + 1 <= b && (forall|i: int|
            a + 1 <= i < b ==> is_decimal_digit(#[trigger] s[i])),
        !dotted ==> b == a,
        !is_decimal_digit(s[b]),
        lettered == (s[b] == 0x65 || s[b] == 0x45),
        lettered ==> b + 1 <= c <= s.len() && (forall|i: int|
            b + 1 <= i < c ==> is_decimal_digit(#[trigger] s[i])) && (c < s.len()
            ==> !is_decimal_digit(s[c])),
        r == ((if dotted {
            b > 1
        } else {
            b > 0
        }) && lettered && b + 1 < s.len() && c == s.len()),
        (if dotted {
            b > 1
        } else {
            b > 0
        }) == is_mantissa(s.take(b)),
    ensures
        r == is_numeral(s),
{
    if r {
        assert forall|i: int| 0 <= i < s.skip(b + 1).len() implies is_decimal_digit(
            #[trigger] s.skip(b + 1)[i],
        ) by {
            assert(s.skip(b + 1)[i] == s[b + 1 + i]);
        }
        assert(is_numeral_split(s, b));
    } else {
        if is_mantissa(s) {
            let d = choose|d: int| is_mantissa_split(s, d);
            lemma_mantissa_split_unique(s, d, a);
            // the mantissa would reach the end of s, past the byte at b
            assert(s.skip(d + 1)[b - (d + 1)] == s[b]) by {
                if dotted && b > a {
                } else {
                }
            }
            if dotted {
                assert(is_decimal_digit(s.skip(d + 1)[b - (d + 1)]));
            }
            assert(false);
        }
        if exists|e: int| is_numeral_split(s, e) {
            let e = choose|e: int| is_numeral_split(s, e);
            let d = choose|d: int| is_mantissa_split(s.take(e), d);
            // the exponent letter is the first byte past the mantissa
            if e < a {
                assert(is_decimal_digit(s[e]));
                assert(false);
            }
            assert(s.take(e).take(d) =~= s.take(d));
            if d < a {
                assert(d < e);
                assert(s.take(e)[d] == s[d]);
                assert(is_decimal_digit(s[d]));
                assert(false);
            }
            if d > a {
                assert(s.take(e).take(d)[a] == s[a]);
                assert(false);
            }
            if e != b {
                if e < b {
                    // e lies in the fraction, whose bytes are digits
                    assert(e > a);
                    assert(is_decimal_digit(s[e]));
                } else {
                    // b lies in the mantissa, past its dot or as its dot
                    if dotted {
                        assert(s.take(e).skip(d + 1)[b - (d + 1)] == s[b]);
                    } else {
                        assert(b == a && a == d);
                        assert(s.take(e)[d] == s[b]);
                    }
                }
                assert(false);
            }
            assert(lettered);
            assert(b + 1 < s.len());
            if c < s.len() {
                assert(s.skip(e + 1)[c - (e + 1)] == s[c]);
                assert(false);
            }
            assert(s.take(b) =~= s.take(e));
            assert(false);
        }
    }
}

} // verus!
