//! Decimal and boolean parsing for the typed accessors, with an exact account
//! of what each text yields and when each failure is reported.

use vstd::arithmetic::div_mod::lemma_fundamental_div_mod;
use vstd::arithmetic::div_mod::lemma_mod_bound;
use vstd::prelude::*;

verus! {

/// Why a present value failed to convert to the requested type.
#[derive(Debug, Clone, Copy, PartialEq, Eq, Structural)]
pub enum ParseError {
    /// The text is empty.
    Empty,
    /// A character stands where a decimal digit (or a leading minus sign for
    /// signed types) is required.
    InvalidDigit,
    /// The digits denote a number outside the requested type's range.
    OutOfRange,
    /// The text is neither `true` nor `false`.
    InvalidBool,
}

/// A decimal digit.
pub open spec fn is_digit(c: char) -> bool {
    '0' <= c && c <= '9'
}

/// The numeric worth of a decimal digit.
pub open spec fn digit_val(c: char) -> int {
    c as int - '0' as int
}

/// Every character of the sequence is a decimal digit.
pub open spec fn all_digits(s: Seq<char>) -> bool {
    forall|i: int| 0 <= i < s.len() ==> is_digit(#[trigger] s[i])
}

/// The number a digit string denotes, most significant digit first.
pub open spec fn dec_value(s: Seq<char>) -> int
    decreases s.len(),
{
    if s.len() == 0 {
        0
    } else {
        dec_value(s.drop_last()) * 10 + digit_val(s.last())
    }
}

/// What parsing text as an unsigned decimal number bounded by `max` yields.
pub open spec fn spec_parse_unsigned(s: Seq<char>, max: int) -> Result<int, ParseError> {
    if s.len() == 0 {
        Err(ParseError::Empty)
    } else if !all_digits(s) {
        Err(ParseError::InvalidDigit)
    } else if dec_value(s) > max {
        Err(ParseError::OutOfRange)
    } else {
        Ok(dec_value(s))
    }
}

/// What parsing text as a signed decimal number within `min ..= max` yields:
/// an optional leading minus sign, then decimal digits.
pub open spec fn spec_parse_signed(s: Seq<char>, min: int, max: int) -> Result<int, ParseError> {
    if s.len() == 0 {
        Err(ParseError::Empty)
    } else if s[0] == '-' {
        let digits = s.subrange(1, s.len() as int);
        if digits.len() == 0 || !all_digits(digits) {
            Err(ParseError::InvalidDigit)
        } else if -dec_value(digits) < min {
            Err(ParseError::OutOfRange)
        } else {
            Ok(-dec_value(digits))
        }
    } else if !all_digits(s) {
        Err(ParseError::InvalidDigit)
    } else if dec_value(s) > max {
        Err(ParseError::OutOfRange)
    } else {
        Ok(dec_value(s))
    }
}

/// What parsing text as a boolean yields: exactly `true` or `false`.
pub open spec fn spec_parse_bool(s: Seq<char>) -> Result<bool, ParseError> {
    if s == seq!['t', 'r', 'u', 'e'] {
        Ok(true)
    } else if s == seq!['f', 'a', 'l', 's', 'e'] {
        Ok(false)
    } else {
        Err(ParseError::InvalidBool)
    }
}

/// A digit string denotes a nonnegative number.
proof fn lemma_dec_value_nonneg(s: Seq<char>)
    requires
        all_digits(s),
    ensures
        dec_value(s) >= 0,
    decreases s.len(),
{
    if s.len() > 0 {
        assert(all_digits(s.drop_last()));
        lemma_dec_value_nonneg(s.drop_last());
        assert(is_digit(s.last()));
    }
}

/// Extending a digit string can only grow the number it denotes.
proof fn lemma_prefix_le(s: Seq<char>, from: int, i: int, n: int)
    requires
        0 <= from <= i <= n <= s.len(),
        forall|j: int| from <= j < n ==> is_digit(#[trigger] s[j]),
    ensures
        dec_value(s.subrange(from, i)) <= dec_value(s.subrange(from, n)),
    decreases n - i,
{
    if i < n {
        let p = s.subrange(from, i);
        let q = s.subrange(from, i + 1);
        assert(q.drop_last() =~= p);
        assert(q.last() == s[i]);
        assert(all_digits(p));
        lemma_dec_value_nonneg(p);
        assert(is_digit(s[i]));
        lemma_prefix_le(s, from, i + 1, n);
    } else {
        assert(s.subrange(from, i) =~= s.subrange(from, n));
    }
}

/// The overflow test the accumulating loop makes is exact: appending the
/// digit `d` leaves the bound `max` exactly when the test says so.
proof fn lemma_step_bound(acc: int, d: int, max: int)
    requires
        0 <= acc,
        0 <= d <= 9,
        0 <= max,
    ensures
        (acc * 10 + d > max) <==> (acc > max / 10 || (acc == max / 10 && d > max % 10)),
{
    lemma_fundamental_div_mod(max, 10);
    lemma_mod_bound(max, 10);
}

/// Reads `s` from position `from` on as decimal digits denoting a number of
/// at most `max`.
fn parse_digits(s: &str, from: usize, max: u64) -> (r: Result<u64, ParseError>)
    requires
        from <= s@.len(),
    ensures
        ({
            let sp = spec_parse_unsigned(s@.subrange(from as int, s@.len() as int), max as int);
            match r {
                Ok(v) => sp == Ok::<int, ParseError>(v as int),
                Err(e) => sp == Err::<int, ParseError>(e),
            }
        }),
{
    let ghost digits = s@.subrange(from as int, s@.len() as int);
    let n = s.unicode_len();
    if from == n {
        return Err(ParseError::Empty);
    }
    let mut i: usize = from;
    while i < n
        invariant
            from <= i <= n,
            from < n,
            n == s@.len(),
            digits == s@.subrange(from as int, s@.len() as int),
            forall|j: int| from <= j < i ==> is_digit(#[trigger] s@[j]),
        decreases n - i,
    {
        let c = s.get_char(i);
        if !('0' <= c && c <= '9') {
            proof {
                let j = i as int - from as int;
                assert(0 <= j < digits.len());
                assert(digits[j] == s@[from as int + j]);
                assert(!is_digit(digits[j]));
            }
            return Err(ParseError::InvalidDigit);
        }
        i += 1;
    }
    proof {
        assert(all_digits(digits)) by {
            assert forall|j: int| 0 <= j < digits.len() implies is_digit(#[trigger] digits[j]) by {
                assert(digits[j] == s@[j + from]);
            }
        }
    }
    let mut acc: u64 = 0;
    let mut i: usize = from;
    while i < n
        invariant
            from <= i <= n,
            n == s@.len(),
            from < n,
            max as int >= 0,
            all_digits(digits),
            digits == s@.subrange(from as int, s@.len() as int),
            forall|j: int| from <= j < n ==> is_digit(#[trigger] s@[j]),
            acc <= max,
            acc as int == dec_value(s@.subrange(from as int, i as int)),
        decreases n - i,
    {
        let c = s.get_char(i);
        assert(is_digit(s@[i as int]));
        let d: u64 = (c as u32 - '0' as u32) as u64;
        proof {
            lemma_step_bound(acc as int, d as int, max as int);
            assert(s@.subrange(from as int, i + 1).drop_last() =~= s@.subrange(
                from as int,
                i as int,
            ));
            assert(s@.subrange(from as int, i + 1).last() == s@[i as int]);
        }
        if acc > max / 10 || (acc == max / 10 && d > max % 10) {
            proof {
                lemma_prefix_le(s@, from as int, i + 1, n as int);
            }
            return Err(ParseError::OutOfRange);
        }
        acc = acc * 10 + d;
        i += 1;
    }
    proof {
        assert(s@.subrange(from as int, i as int) == digits);
    }
    Ok(acc)
}

/// Parses the whole of `s` as an unsigned decimal number of at most `max`,
/// exactly as `spec_parse_unsigned` states it.
pub(crate) fn parse_unsigned_str(s: &str, max: u64) -> (r: Result<u64, ParseError>)
    ensures
        ({
            let sp = spec_parse_unsigned(s@, max as int);
            match r {
                Ok(v) => sp == Ok::<int, ParseError>(v as int),
                Err(e) => sp == Err::<int, ParseError>(e),
            }
        }),
        r matches Ok(v) ==> v <= max,
{
    proof {
        assert(s@.subrange(0, s@.len() as int) =~= s@);
    }
    parse_digits(s, 0, max)
}

/// Parses the whole of `s` as a signed decimal number within
/// `-neg_mag ..= max`, exactly as `spec_parse_signed` states it.
pub(crate) fn parse_signed_str(s: &str, neg_mag: u64, max: u64) -> (r: Result<i64, ParseError>)
    requires
        neg_mag <= 0x8000_0000_0000_0000,
        max <= 0x7fff_ffff_ffff_ffff,
    ensures
        ({
            let sp = spec_parse_signed(s@, -(neg_mag as int), max as int);
            match r {
                Ok(v) => sp == Ok::<int, ParseError>(v as int),
                Err(e) => sp == Err::<int, ParseError>(e),
            }
        }),
        r matches Ok(v) ==> -(neg_mag as int) <= v as int <= max as int,
{
    let n = s.unicode_len();
    if n == 0 {
        return Err(ParseError::Empty);
    }
    if s.get_char(0) == '-' {
        match parse_digits(s, 1, neg_mag) {
            Ok(v) => {
                let neg: i64 = if v == 0 {
                    0
                } else {
                    -1 - ((v - 1) as i64)
                };
                Ok(neg)
            },
            Err(ParseError::Empty) => Err(ParseError::InvalidDigit),
            Err(e) => Err(e),
        }
    } else {
        proof {
            assert(s@.subrange(0, s@.len() as int) =~= s@);
        }
        match parse_digits(s, 0, max) {
            Ok(v) => Ok(v as i64),
            Err(e) => Err(e),
        }
    }
}

/// Parses the whole of `s` as a boolean, exactly as `spec_parse_bool` states
/// it: the literal `true` or the literal `false`, nothing else.
pub(crate) fn parse_bool_str(s: &str) -> (r: Result<bool, ParseError>)
    ensures
        ({
            let sp = spec_parse_bool(s@);
            match r {
                Ok(v) => sp == Ok::<bool, ParseError>(v),
                Err(e) => sp == Err::<bool, ParseError>(e),
            }
        }),
{
    let n = s.unicode_len();
    if n == 4 && s.get_char(0) == 't' && s.get_char(1) == 'r' && s.get_char(2) == 'u'
        && s.get_char(3) == 'e' {
        proof {
            assert(s@ =~= seq!['t', 'r', 'u', 'e']);
        }
        Ok(true)
    } else if n == 5 && s.get_char(0) == 'f' && s.get_char(1) == 'a' && s.get_char(2) == 'l'
        && s.get_char(3) == 's' && s.get_char(4) == 'e' {
        proof {
            assert(s@ =~= seq!['f', 'a', 'l', 's', 'e']);
        }
        Ok(false)
    } else {
        proof {
            if s@ == seq!['t', 'r', 'u', 'e'] {
                assert(s@.len() == 4);
                assert(s@[0] == 't' && s@[1] == 'r' && s@[2] == 'u' && s@[3] == 'e');
            }
            if s@ == seq!['f', 'a', 'l', 's', 'e'] {
                assert(s@.len() == 5);
                assert(s@[0] == 'f' && s@[1] == 'a' && s@[2] == 'l' && s@[3] == 's' && s@[4]
                    == 'e');
            }
        }
        Err(ParseError::InvalidBool)
    }
}

} // verus!
