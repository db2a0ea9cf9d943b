//! Decimal text: the mathematical meaning of decimal digit strings, a
//! verified renderer from unsigned integers to decimal text, and verified
//! parsers from text to fixed-width signed integers.

use vstd::prelude::*;

verus! {

/// `c` is a decimal digit character.
pub open spec fn is_digit(c: char) -> bool {
    ('0' as int) <= c as int && c as int <= ('9' as int)
}

/// Numeric value of a digit character.
pub open spec fn digit_val(c: char) -> int {
    c as int - ('0' as int)
}

/// The digit character for a value in `0 ..= 9`.
pub open spec fn char_of_digit(d: int) -> char {
    if d == 0 {
        '0'
    } else if d == 1 {
        '1'
    } else if d == 2 {
        '2'
    } else if d == 3 {
        '3'
    } else if d == 4 {
        '4'
    } else if d == 5 {
        '5'
    } else if d == 6 {
        '6'
    } else if d == 7 {
        '7'
    } else if d == 8 {
        '8'
    } else {
        '9'
    }
}

/// Canonical decimal rendering of a natural number (no leading zeros,
/// except that zero itself renders as "0").
pub open spec fn dec_of(n: nat) -> Seq<char>
    decreases n,
{
    if n < 10 {
        seq![char_of_digit(n as int)]
    } else {
        dec_of(n / 10) + seq![char_of_digit((n % 10) as int)]
    }
}

/// Every character of `s` is a decimal digit.
pub open spec fn all_digits(s: Seq<char>) -> bool {
    forall|i: int| 0 <= i < s.len() ==> is_digit(s[i])
}

/// Value of a digit string read in base ten (empty string reads as zero).
pub open spec fn dec_val(s: Seq<char>) -> int
    decreases s.len(),
{
    if s.len() == 0 {
        0
    } else {
        dec_val(s.drop_last()) * 10 + digit_val(s.last())
    }
}

/// `s` is a signed decimal integer literal: an optional `+` or `-` sign
/// followed by at least one digit.
pub open spec fn is_int_literal(s: Seq<char>) -> bool {
    if s.len() > 0 && (s[0] == '-' || s[0] == '+') {
        s.len() > 1 && all_digits(s.skip(1))
    } else {
        s.len() > 0 && all_digits(s)
    }
}

/// Mathematical value of a signed decimal integer literal.
pub open spec fn int_literal_val(s: Seq<char>) -> int
    recommends
        is_int_literal(s),
{
    if s.len() > 0 && s[0] == '-' {
        -dec_val(s.skip(1))
    } else if s.len() > 0 && s[0] == '+' {
        dec_val(s.skip(1))
    } else {
        dec_val(s)
    }
}

/// A digit string never reads as a negative value.
pub proof fn lemma_dec_val_nonneg(s: Seq<char>)
    requires
        all_digits(s),
    ensures
        dec_val(s) >= 0,
    decreases s.len(),
{
    if s.len() > 0 {
        lemma_dec_val_nonneg(s.drop_last());
    }
}

/// Reading more digits never decreases the value: the value of a prefix of a
/// digit string bounds the value of the whole string from below.
pub proof fn lemma_dec_val_prefix(s: Seq<char>, k: int)
    requires
        all_digits(s),
        0 <= k <= s.len(),
    ensures
        dec_val(s.subrange(0, k)) <= dec_val(s),
    decreases s.len() - k,
{
    if k < s.len() {
        let p = s.subrange(0, k);
        let q = s.subrange(0, k + 1);
        assert(q.drop_last() =~= p);
        lemma_dec_val_nonneg(p);
        lemma_dec_val_prefix(s, k + 1);
    } else {
        assert(s.subrange(0, k) =~= s);
    }
}

pub(crate) fn digit_str(d: u64) -> (r: &'static str)
    requires
        d < 10,
    ensures
        r@ =~= seq![char_of_digit(d as int)],
{
    proof {
        reveal_strlit("0");
        reveal_strlit("1");
        reveal_strlit("2");
        reveal_strlit("3");
        reveal_strlit("4");
        reveal_strlit("5");
        reveal_strlit("6");
        reveal_strlit("7");
        reveal_strlit("8");
        reveal_strlit("9");
    }
    match d {
        0 => "0",
        1 => "1",
        2 => "2",
        3 => "3",
        4 => "4",
        5 => "5",
        6 => "6",
        7 => "7",
        8 => "8",
        _ => "9",
    }
}

/// Render an unsigned integer as decimal text.
pub fn u64_to_dec(n: u64) -> (r: String)
    ensures
        r@ == dec_of(n as nat),
    decreases n,
{
    if n < 10 {
        String::from_str(digit_str(n))
    } else {
        let mut s = u64_to_dec(n / 10);
        s.append(digit_str(n % 10));
        s
    }
}

/// Parse a signed decimal integer literal into an `i64`.
///
/// Returns `Some` exactly when the text is a signed decimal literal whose
/// value fits in an `i64`, and then returns that value.
pub fn parse_i64(s: &str) -> (r: Option<i64>)
    ensures
        match r {
            Some(v) => is_int_literal(s@) && int_literal_val(s@) == v as int,
            None => !(is_int_literal(s@) && i64::MIN <= int_literal_val(s@) <= i64::MAX),
        },
{
    let len = s.unicode_len();
    if len == 0 {
        return None;
    }
    let c0 = s.get_char(0);
    let neg = c0 == '-';
    let start: usize = if c0 == '-' || c0 == '+' {
        1
    } else {
        0
    };
    if start == len {
        return None;
    }
    let limit: u64 = if neg {
        9223372036854775808
    } else {
        9223372036854775807
    };
    let ghost digits = s@.skip(start as int);
    let mut m: u64 = 0;
    let mut i: usize = start;
    while i < len
        invariant
            start <= i <= len,
            len == s@.len(),
            digits == s@.skip(start as int),
            start == 0 || start == 1,
            start == 1 ==> s@[0] == '-' || s@[0] == '+',
            start == 0 ==> !(s@[0] == '-' || s@[0] == '+'),
            neg == (s@[0] == '-'),
            limit == if neg { 9223372036854775808u64 } else { 9223372036854775807u64 },
            all_digits(s@.subrange(start as int, i as int)),
            m == dec_val(s@.subrange(start as int, i as int)),
            m <= limit,
        decreases len - i,
    {
        let c = s.get_char(i);
        let cu = c as u32;
        if cu < 48 || cu > 57 {
            proof {
                assert(digits[i - start] == s@[i as int]);
                assert(!is_digit(s@[i as int]));
            }
            return None;
        }
        let d: u64 = (cu - 48) as u64;
        proof {
            assert(is_digit(s@[i as int]));
            assert(d as int == digit_val(s@[i as int]));
        }
        if m > (limit - d) / 10 {
            proof {
                let p = s@.subrange(start as int, i as int);
                let q = s@.subrange(start as int, i + 1);
                assert(q.drop_last() =~= p);
                assert(q.last() == s@[i as int]);
                assert(dec_val(q) == m * 10 + d);
                assert(m * 10 + d > limit) by (nonlinear_arith)
                    requires
                        m > (limit - d) / 10,
                        d < 10,
                        d <= limit,
                        m <= limit,
                {}
                assert(digits.subrange(0, i + 1 - start) =~= q);
                lemma_dec_val_extend_full(s@, start as int, i + 1);
                assert(s@.subrange(start as int, len as int) =~= digits);
                if start == 0 {
                    assert(s@.skip(0) =~= s@);
                }
                if is_int_literal(s@) {
                    assert(all_digits(digits));
                    assert(dec_val(digits) > limit);
                    assert(int_literal_val(s@) == if neg {
                        -dec_val(digits)
                    } else {
                        dec_val(digits)
                    });
                }
            }
            return None;
        }
        proof {
            let p = s@.subrange(start as int, i as int);
            let q = s@.subrange(start as int, i + 1);
            assert(q.drop_last() =~= p);
            assert(q.last() == s@[i as int]);
            assert(m * 10 + d <= limit) by (nonlinear_arith)
                requires
                    m <= (limit - d) / 10,
                    d < 10,
                    d <= limit,
            {}
        }
        m = m * 10 + d;
        i = i + 1;
    }
    proof {
        assert(s@.subrange(start as int, len as int) =~= digits);
        if start == 0 {
            assert(s@.skip(0) =~= s@);
        }
        assert(all_digits(digits));
        assert(is_int_literal(s@));
        assert(int_literal_val(s@) == if neg {
            -dec_val(digits)
        } else {
            dec_val(digits)
        });
    }
    if neg {
        if m == 9223372036854775808 {
            Some(i64::MIN)
        } else {
            Some(-(m as i64))
        }
    } else {
        Some(m as i64)
    }
}

/// If some prefix of the digit part already exceeds a bound, the whole
/// literal's magnitude exceeds it too (helper for early rejection).
proof fn lemma_dec_val_extend_full(s: Seq<char>, start: int, k: int)
    requires
        0 <= start <= k <= s.len(),
        all_digits(s.subrange(start, k)),
    ensures
        all_digits(s.subrange(start, s.len() as int)) ==> dec_val(s.subrange(start, k)) <= dec_val(
            s.subrange(start, s.len() as int),
        ),
{
    let full = s.subrange(start, s.len() as int);
    if all_digits(full) {
        assert(full.subrange(0, k - start) =~= s.subrange(start, k));
        lemma_dec_val_prefix(full, k - start);
    }
}

/// Parse a signed decimal integer literal into an `i32`.
pub fn parse_i32(s: &str) -> (r: Option<i32>)
    ensures
        match r {
            Some(v) => is_int_literal(s@) && int_literal_val(s@) == v as int,
            None => !(is_int_literal(s@) && i32::MIN <= int_literal_val(s@) <= i32::MAX),
        },
{
    match parse_i64(s) {
        None => None,
        Some(v) => if -2147483648i64 <= v && v <= 2147483647i64 {
            Some(v as i32)
        } else {
            None
        },
    }
}

/// Parse a signed decimal integer literal into an `i16`.
pub fn parse_i16(s: &str) -> (r: Option<i16>)
    ensures
        match r {
            Some(v) => is_int_literal(s@) && int_literal_val(s@) == v as int,
            None => !(is_int_literal(s@) && i16::MIN <= int_literal_val(s@) <= i16::MAX),
        },
{
    match parse_i64(s) {
        None => None,
        Some(v) => if -32768i64 <= v && v <= 32767i64 {
            Some(v as i16)
        } else {
            None
        },
    }
}

} // verus!
