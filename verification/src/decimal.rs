//! Decimal serialization of user identifiers: the wire format writes each
//! voter as a plain base-ten integer, so the codec needs an exact
//! formatter and parser for the platform's integer identifier type.

use vstd::prelude::*;

verus! {

/// Whether `c` is a decimal digit.
pub open spec fn is_dec_digit(c: char) -> bool {
    48 <= c as int <= 57
}

/// Numeric value of a digit character.
pub open spec fn digit_val(c: char) -> int {
    c as int - 48
}

/// Whether every character of `s` is a decimal digit.
pub open spec fn all_digits(s: Seq<char>) -> bool {
    forall|i: int| 0 <= i < s.len() ==> is_dec_digit(#[trigger] s[i])
}

/// Value of a digit string, most significant digit first.
pub open spec fn dec_val(s: Seq<char>) -> int
    decreases s.len(),
{
    if s.len() == 0 {
        0
    } else {
        dec_val(s.drop_last()) * 10 + digit_val(s.last())
    }
}

/// The digit character of a value in 0..=9.
pub open spec fn digit_char(d: int) -> char {
    if d == 0 {
        '0'
    } else if d == 1 {
        '1'
    } else if d == 2 {
        '2'
    } else if d == 3 {
        '3'
    } else if d == 4 {
        '4'
    } else if d == 5 {
        '5'
    } else if d == 6 {
        '6'
    } else if d == 7 {
        '7'
    } else if d == 8 {
        '8'
    } else {
        '9'
    }
}

/// Canonical decimal representation of a natural number (no leading
/// zeros, except that zero itself is "0").
pub open spec fn dec_str(n: nat) -> Seq<char>
    decreases n,
{
    if n < 10 {
        seq![digit_char(n as int)]
    } else {
        dec_str(n / 10).push(digit_char((n % 10) as int))
    }
}

/// Canonical decimal representation of a signed value.
pub open spec fn dec_i32(v: int) -> Seq<char> {
    if v < 0 {
        seq!['-'] + dec_str((-v) as nat)
    } else {
        dec_str(v as nat)
    }
}

/// What parsing a user-identifier token means: an optional leading minus
/// sign, then at least one digit, and a value within the identifier
/// type's range. Anything else is not a user identifier.
pub open spec fn spec_parse_i32(s: Seq<char>) -> Option<i32> {
    if s.len() >= 1 && s[0] == '-' {
        let d = s.skip(1);
        if d.len() > 0 && all_digits(d) && -dec_val(d) >= i32::MIN {
            Some((-dec_val(d)) as i32)
        } else {
            None
        }
    } else if s.len() > 0 && all_digits(s) && dec_val(s) <= i32::MAX {
        Some(dec_val(s) as i32)
    } else {
        None
    }
}

/// A digit string has a non-negative value.
pub proof fn lemma_dec_val_nonneg(s: Seq<char>)
    requires
        all_digits(s),
    ensures
        dec_val(s) >= 0,
    decreases s.len(),
{
    if s.len() > 0 {
        assert(all_digits(s.drop_last())) by {
            assert(forall|i: int|
                0 <= i < s.len() - 1 ==> #[trigger] s.drop_last()[i] == s[i]);
        }
        lemma_dec_val_nonneg(s.drop_last());
    }
}

/// The value of a digit string is at least the value of any of its
/// prefixes.
pub proof fn lemma_dec_val_prefix(s: Seq<char>, i: int)
    requires
        all_digits(s),
        0 <= i <= s.len(),
    ensures
        dec_val(s.take(i)) <= dec_val(s),
    decreases s.len(),
{
    if i < s.len() {
        assert(all_digits(s.drop_last())) by {
            assert(forall|j: int|
                0 <= j < s.len() - 1 ==> #[trigger] s.drop_last()[j] == s[j]);
        }
        assert(s.take(i) =~= s.drop_last().take(i));
        lemma_dec_val_prefix(s.drop_last(), i);
        lemma_dec_val_nonneg(s.drop_last());
    } else {
        assert(s.take(i) =~= s);
    }
}

/// The string slice holding one digit.
fn digit_slice(d: u64) -> (r: &'static str)
    requires
        d < 10,
    ensures
        r@ =~= seq![digit_char(d as int)],
{
    proof {
        reveal_strlit("0");
        reveal_strlit("1");
        reveal_strlit("2");
        reveal_strlit("3");
        reveal_strlit("4");
        reveal_strlit("5");
        reveal_strlit("6");
        reveal_strlit("7");
        reveal_strlit("8");
        reveal_strlit("9");
    }
    if d == 0 {
        "0"
    } else if d == 1 {
        "1"
    } else if d == 2 {
        "2"
    } else if d == 3 {
        "3"
    } else if d == 4 {
        "4"
    } else if d == 5 {
        "5"
    } else if d == 6 {
        "6"
    } else if d == 7 {
        "7"
    } else if d == 8 {
        "8"
    } else {
        "9"
    }
}

/// Appends the canonical decimal digits of `n` to `out`.
fn push_dec(n: u64, out: &mut String)
    ensures
        final(out)@ == old(out)@ + dec_str(n as nat),
    decreases n,
{
    if n < 10 {
        out.append(digit_slice(n));
    } else {
        push_dec(n / 10, out);
        out.append(digit_slice(n % 10));
        proof {
            assert(old(out)@ + dec_str((n / 10) as nat) + seq![
                digit_char((n % 10) as int),
            ] =~= old(out)@ + dec_str(n as nat));
        }
    }
}

/// Formats a user identifier in its canonical decimal form.
pub fn format_i32(v: i32) -> (r: String)
    ensures
        r@ == dec_i32(v as int),
{
    let mut out = String::new();
    if v < 0 {
        out.append("-");
        proof {
            reveal_strlit("-");
            assert(out@ =~= seq!['-']);
        }
        let mag: u64 = (-(v as i64)) as u64;
        push_dec(mag, &mut out);
        proof {
            assert(out@ =~= dec_i32(v as int));
        }
    } else {
        let mag: u64 = v as u64;
        push_dec(mag, &mut out);
        proof {
            assert(out@ =~= dec_i32(v as int));
        }
    }
    out
}

/// Formats a count in its canonical decimal form.
pub fn format_u64(n: u64) -> (r: String)
    ensures
        r@ == dec_str(n as nat),
{
    let mut out = String::new();
    push_dec(n, &mut out);
    proof {
        assert(out@ =~= dec_str(n as nat));
    }
    out
}

/// Parses a user-identifier token, accepting exactly the strings that
/// `spec_parse_i32` accepts.
pub fn parse_i32(s: &str) -> (r: Option<i32>)
    ensures
        r == spec_parse_i32(s@),
{
    let n = s.unicode_len();
    let neg = n > 0 && s.get_char(0) == '-';
    let start: usize = if neg { 1 } else { 0 };
    if start == n {
        return None;
    }
    let ghost digits: Seq<char> = s@.skip(start as int);
    proof {
        if !neg {
            assert(digits =~= s@);
        }
    }
    let mut mag: u64 = 0;
    let mut i: usize = start;
    while i < n
        invariant
            start <= i <= n,
            n == s@.len(),
            start == if neg { 1int } else { 0int },
            neg ==> s@[0] == '-',
            !neg && n > 0 ==> s@[0] != '-',
            digits == s@.skip(start as int),
            all_digits(digits.take(i - start)),
            mag as int == dec_val(digits.take(i - start)),
            mag <= 2147483648,
        decreases n - i,
    {
        let c = s.get_char(i);
        let cv = c as u32;
        if cv < 48 || cv > 57 {
            proof {
                assert(digits[i - start] == s@[i as int]);
                assert(!is_dec_digit(digits[i - start]));
                assert(!all_digits(digits));
            }
            return None;
        }
        let d: u64 = (cv - 48) as u64;
        proof {
            assert(digits.take(i - start + 1).drop_last() =~= digits.take(i - start));
            assert(digits.take(i - start + 1).last() == s@[i as int]);
        }
        mag = mag * 10 + d;
        i = i + 1;
        if mag > 2147483648 {
            proof {
                assert(dec_val(digits.take(i - start)) > 2147483648);
                if all_digits(digits) {
                    lemma_dec_val_prefix(digits, i - start);
                    assert(dec_val(digits) > 2147483648);
                }
                if neg {
                    assert(s@.len() >= 1 && s@[0] == '-');
                    assert(spec_parse_i32(s@) == None::<i32>);
                } else {
                    assert(digits == s@);
                    assert(spec_parse_i32(s@) == None::<i32>);
                }
            }
            return None;
        }
    }
    proof {
        assert(digits.take(i - start) =~= digits);
        lemma_dec_val_nonneg(digits);
    }
    if neg {
        let val: i64 = -(mag as i64);
        Some(val as i32)
    } else {
        if mag > 2147483647 {
            return None;
        }
        Some(mag as i32)
    }
}

/// Every character of a canonical decimal representation is a digit,
/// except a leading minus sign on a negative value; in particular the
/// representation is non-empty and contains no codec delimiter.
pub proof fn lemma_dec_str_digits(n: nat)
    ensures
        dec_str(n).len() > 0,
        all_digits(dec_str(n)),
    decreases n,
{
    if n >= 10 {
        lemma_dec_str_digits(n / 10);
        assert(forall|i: int|
            0 <= i < dec_str(n / 10).len() ==> #[trigger] dec_str(n)[i] == dec_str(n / 10)[i]);
        assert(dec_str(n).last() == digit_char((n % 10) as int));
    }
}

/// A digit character carries the digit value it was made from.
pub proof fn lemma_digit_char_val(d: int)
    requires
        0 <= d <= 9,
    ensures
        is_dec_digit(digit_char(d)),
        digit_val(digit_char(d)) == d,
{
}

/// Parsing recovers the value from its canonical representation.
pub proof fn lemma_dec_val_of_dec_str(n: nat)
    ensures
        dec_val(dec_str(n)) == n,
    decreases n,
{
    if n < 10 {
        reveal_with_fuel(dec_val, 2);
        lemma_digit_char_val(n as int);
        assert(dec_str(n).drop_last() =~= Seq::<char>::empty());
        assert(dec_str(n).last() == digit_char(n as int));
    } else {
        lemma_dec_val_of_dec_str(n / 10);
        lemma_digit_char_val((n % 10) as int);
        assert(dec_str(n).drop_last() =~= dec_str(n / 10));
        assert(dec_str(n).last() == digit_char((n % 10) as int));
        assert(n / 10 * 10 + n % 10 == n) by {
            vstd::arithmetic::div_mod::lemma_fundamental_div_mod(n as int, 10);
        }
    }
}

/// The delimiters of the wire format never occur in a canonical decimal
/// representation.
pub proof fn lemma_dec_i32_chars(v: int)
    requires
        i32::MIN <= v <= i32::MAX,
    ensures
        dec_i32(v).len() > 0,
        !dec_i32(v).contains(','),
        !dec_i32(v).contains('&'),
        !dec_i32(v).contains('='),
    decreases 1int,
{
    if v < 0 {
        lemma_dec_str_digits((-v) as nat);
        assert(forall|i: int|
            0 <= i < dec_i32(v).len() ==> #[trigger] dec_i32(v)[i] == '-' || is_dec_digit(
                dec_i32(v)[i],
            )) by {
            assert(forall|i: int|
                1 <= i < dec_i32(v).len() ==> #[trigger] dec_i32(v)[i] == dec_str((-v) as nat)[i
                    - 1]);
        }
    } else {
        lemma_dec_str_digits(v as nat);
        assert(forall|i: int|
            0 <= i < dec_i32(v).len() ==> is_dec_digit(#[trigger] dec_i32(v)[i]));
    }
}

/// Round trip: parsing the canonical representation of any identifier
/// value yields that value back.
pub proof fn lemma_parse_of_format(v: int)
    requires
        i32::MIN <= v <= i32::MAX,
    ensures
        spec_parse_i32(dec_i32(v)) == Some(v as i32),
{
    if v < 0 {
        let d = dec_i32(v).skip(1);
        assert(d =~= dec_str((-v) as nat));
        lemma_dec_str_digits((-v) as nat);
        lemma_dec_val_of_dec_str((-v) as nat);
        assert(dec_i32(v)[0] == '-');
    } else {
        lemma_dec_str_digits(v as nat);
        lemma_dec_val_of_dec_str(v as nat);
        assert(dec_i32(v)[0] != '-') by {
            assert(is_dec_digit(dec_i32(v)[0]));
        }
    }
}

} // verus!
