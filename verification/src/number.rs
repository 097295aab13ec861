//! Decimal numbers as they are written on a command line.

use vstd::prelude::*;
use vstd::string::*;

verus! {

/// An ASCII decimal digit.
pub open spec fn is_digit(c: char) -> bool {
    '0' <= c && c <= '9'
}

/// The value of a decimal digit.
pub open spec fn digit_value(c: char) -> nat {
    (c as int - '0' as int) as nat
}

/// Every character is a decimal digit.
pub open spec fn all_digits(s: Seq<char>) -> bool {
    forall|i: int| 0 <= i < s.len() ==> is_digit(#[trigger] s[i])
}

/// The number that a sequence of digits denotes in base ten.
pub open spec fn digits_value(s: Seq<char>) -> nat
    decreases s.len(),
{
    if s.len() == 0 {
        0
    } else {
        digits_value(s.drop_last()) * 10 + digit_value(s.last())
    }
}

/// A numeral without its optional leading plus sign.
pub open spec fn unsigned_part(s: Seq<char>) -> Seq<char> {
    if s.len() > 0 && s[0] == '+' {
        s.drop_first()
    } else {
        s
    }
}

/// A numeral: an optional plus sign, then one or more decimal digits and
/// nothing else.
pub open spec fn is_numeral(s: Seq<char>) -> bool {
    unsigned_part(s).len() > 0 && all_digits(unsigned_part(s))
}

/// The number that a numeral denotes.
pub open spec fn numeral_value(s: Seq<char>) -> nat {
    digits_value(unsigned_part(s))
}

/// A longer digit sequence never denotes less than one of its prefixes.
proof fn lemma_prefix_value(s: Seq<char>, k: int)
    requires
        0 <= k <= s.len(),
    ensures
        digits_value(s.take(k)) <= digits_value(s),
    decreases s.len() - k,
{
    if k == s.len() {
        assert(s.take(k) =~= s);
    } else {
        lemma_prefix_value(s.drop_last(), k);
        assert(s.drop_last().take(k) =~= s.take(k));
    }
}

/// Reads a numeral into a `usize`; `None` where the text is no numeral or
/// denotes more than a `usize` holds.
pub fn parse_count(val: &str) -> (r: Option<usize>)
    ensures
        r is Some <==> is_numeral(val@) && numeral_value(val@) <= usize::MAX,
        r matches Some(n) ==> n == numeral_value(val@),
{
    if !val.is_ascii() {
        proof {
            let i = choose|i: int| 0 <= i < val@.len() && !('\0' <= #[trigger] val@[i] <= '\u{7f}');
            if i > 0 || val@[0] != '+' {
                let j = if unsigned_part(val@).len() == val@.len() { i } else { i - 1 };
                assert(unsigned_part(val@)[j] == val@[i]);
            }
        }
        return None;
    }
    let bytes = val.as_bytes();
    proof {
        is_ascii_spec_bytes(val);
    }
    let n: usize = bytes.len();
    let start: usize = if n > 0 && bytes[0] == 43u8 { 1 } else { 0 };
    let ghost digits = unsigned_part(val@);
    assert(digits =~= val@.subrange(start as int, n as int));
    if start == n {
        return None;
    }
    let mut i: usize = start;
    let mut acc: usize = 0;
    while i < n
        invariant
            start <= i <= n,
            n == bytes@.len(),
            n == val@.len(),
            digits == unsigned_part(val@),
            digits == val@.subrange(start as int, n as int),
            forall|j: int| 0 <= j < n ==> bytes@[j] == val@[j] as u8,
            forall|j: int| 0 <= j < n ==> '\0' <= #[trigger] val@[j] <= '\u{7f}',
            all_digits(digits.take(i - start)),
            acc == digits_value(digits.take(i - start)),
        decreases n - i,
    {
        let b: u8 = bytes[i];
        let ghost c = val@[i as int];
        assert(digits[i - start] == c);
        assert(b == c as u8);
        if b < 48u8 || b > 57u8 {
            assert(!is_digit(c));
            return None;
        }
        let d: usize = (b - 48u8) as usize;
        let ghost next = digits.take(i - start + 1);
        assert(next.drop_last() =~= digits.take(i - start));
        assert(next.last() == c);
        assert(digits_value(next) == acc * 10 + d);
        if acc > (usize::MAX - d) / 10 {
            proof {
                lemma_prefix_value(digits, i - start + 1);
            }
            return None;
        }
        acc = acc * 10 + d;
        i = i + 1;
    }
    assert(digits.take(i - start) =~= digits);
    Some(acc)
}

/// Reads a line count: a numeral that denotes a positive number. Anything
/// else is handed back as the error.
pub fn _parse_positive_int(val: &str) -> (r: Result<usize, String>)
    ensures
        r is Ok <==> is_numeral(val@) && 0 < numeral_value(val@) <= usize::MAX,
        r matches Ok(n) ==> n == numeral_value(val@),
        r matches Err(e) ==> e@ == val@,
{
    match parse_count(val) {
        Some(n) if n > 0 => Ok(n),
        _ => Err(String::from_str(val)),
    }
}

} // verus!
