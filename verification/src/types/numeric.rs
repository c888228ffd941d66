//! Decimal text and the integers it stands for.
//!
//! A database hands out amounts, block heights and timestamps as decimal text
//! of arbitrary precision. The text that is accepted here is an optional `-`,
//! one or more digits, and optionally a point followed by one or more zeros;
//! nothing else: no blank, no `+`, no exponent, no digit other than zero behind
//! the point. What it stands for is then an integer, and the conversions
//! succeed exactly when that integer fits the type asked for.
use crate::errors::ErrorKind;
use vstd::prelude::*;
use vstd::string::StringExecFns;
use vstd::string::StringSliceAdditionalSpecFns;

verus! {

/// The byte of the minus sign.
const MINUS: u8 = 45;

/// The byte of the decimal point.
const POINT: u8 = 46;

/// The byte of the digit zero; the other digits follow it.
const ZERO: u8 = 48;

/// The byte of the digit nine.
const NINE: u8 = 57;

/// Whether `c` is one of the ten decimal digits.
pub open spec fn is_digit(c: char) -> bool {
    '0' <= c && c <= '9'
}

/// The number that the digit `c` stands for.
pub open spec fn digit_value(c: char) -> nat {
    (c as int - '0' as int) as nat
}

/// The number that a run of digits writes in base ten. The empty run writes 0.
pub open spec fn number_of(digits: Seq<char>) -> nat
    decreases digits.len(),
{
    if digits.len() == 0 {
        0
    } else {
        10 * number_of(digits.drop_last()) + digit_value(digits.last())
    }
}

/// How many digits `s` begins with.
pub open spec fn leading_digits(s: Seq<char>) -> nat
    decreases s.len(),
{
    if s.len() > 0 && is_digit(s.first()) {
        1 + leading_digits(s.drop_first())
    } else {
        0
    }
}

/// Whether `s` is one or more zeros and nothing else.
pub open spec fn is_zeros(s: Seq<char>) -> bool {
    s.len() > 0 && forall|i: int| 0 <= i < s.len() ==> s[i] == '0'
}

/// Whether `s` begins with a minus sign.
pub open spec fn has_minus(s: Seq<char>) -> bool {
    s.len() > 0 && s[0] == '-'
}

/// `s` without its minus sign, if it has one.
pub open spec fn unsigned_text(s: Seq<char>) -> Seq<char> {
    if has_minus(s) {
        s.drop_first()
    } else {
        s
    }
}

/// The integer that the decimal text `s` stands for, or `None` where `s` is
/// not of the accepted form or has a digit other than zero behind the point.
pub open spec fn decimal_value(s: Seq<char>) -> Option<int> {
    let m = unsigned_text(s);
    let k = leading_digits(m) as int;
    let tail = m.skip(k);
    if k > 0 && (tail.len() == 0 || (tail[0] == '.' && is_zeros(tail.drop_first()))) {
        let n = number_of(m.take(k)) as int;
        Some(
            if has_minus(s) {
                -n
            } else {
                n
            },
        )
    } else {
        None
    }
}

/// What [`to_u128`] returns for the text `s`.
pub open spec fn to_u128_spec(s: Seq<char>) -> Result<u128, ErrorKind> {
    match decimal_value(s) {
        None => Err(ErrorKind::MalformedNumeric),
        Some(v) => if 0 <= v <= u128::MAX {
            Ok(v as u128)
        } else {
            Err(ErrorKind::OutOfRange)
        },
    }
}

/// What [`to_i128`] returns for the text `s`.
pub open spec fn to_i128_spec(s: Seq<char>) -> Result<i128, ErrorKind> {
    match decimal_value(s) {
        None => Err(ErrorKind::MalformedNumeric),
        Some(v) => if i128::MIN <= v <= i128::MAX {
            Ok(v as i128)
        } else {
            Err(ErrorKind::OutOfRange)
        },
    }
}

/// What [`to_u64`] returns for the text `s`.
pub open spec fn to_u64_spec(s: Seq<char>) -> Result<u64, ErrorKind> {
    match decimal_value(s) {
        None => Err(ErrorKind::MalformedNumeric),
        Some(v) => if 0 <= v <= u64::MAX {
            Ok(v as u64)
        } else {
            Err(ErrorKind::OutOfRange)
        },
    }
}

/// What [`sign_and_magnitude`] returns for the text `s`.
pub open spec fn sign_and_magnitude_spec(s: Seq<char>) -> Result<(bool, u128), ErrorKind> {
    match decimal_value(s) {
        None => Err(ErrorKind::MalformedNumeric),
        Some(v) => if -(u128::MAX as int) <= v <= u128::MAX {
            Ok(
                (
                    has_minus(s),
                    (if v < 0 {
                        -v
                    } else {
                        v
                    }) as u128,
                ),
            )
        } else {
            Err(ErrorKind::OutOfRange)
        },
    }
}

/// The first `leading_digits(s)` characters of `s` are digits, and the one
/// behind them, if there is one, is not.
pub proof fn lemma_leading_digits(s: Seq<char>)
    ensures
        leading_digits(s) <= s.len(),
        forall|j: int| 0 <= j < leading_digits(s) ==> is_digit(s[j]),
        leading_digits(s) < s.len() ==> !is_digit(s[leading_digits(s) as int]),
    decreases s.len(),
{
    if s.len() > 0 && is_digit(s.first()) {
        let rest = s.drop_first();
        lemma_leading_digits(rest);
        assert forall|j: int| 0 <= j < leading_digits(s) implies is_digit(s[j]) by {
            if j > 0 {
                assert(s[j] == rest[j - 1]);
            }
        }
        if leading_digits(s) < s.len() {
            assert(s[leading_digits(s) as int] == rest[leading_digits(rest) as int]);
        }
    }
}

/// A text that begins with `k` digits, and goes on with something else or
/// ends there, has `k` leading digits.
pub proof fn lemma_leading_digits_found(s: Seq<char>, k: int)
    requires
        0 <= k <= s.len(),
        forall|j: int| 0 <= j < k ==> is_digit(s[j]),
        k < s.len() ==> !is_digit(s[k]),
    ensures
        leading_digits(s) == k,
    decreases k,
{
    if k > 0 {
        let rest = s.drop_first();
        assert forall|j: int| 0 <= j < k - 1 implies is_digit(rest[j]) by {
            assert(rest[j] == s[j + 1]);
        }
        lemma_leading_digits_found(rest, k - 1);
    }
}

/// Reading more digits never gives a smaller number.
pub proof fn lemma_number_of_prefix(digits: Seq<char>, i: int)
    requires
        0 <= i <= digits.len(),
    ensures
        number_of(digits.take(i)) <= number_of(digits),
    decreases digits.len(),
{
    if i == digits.len() {
        assert(digits.take(i) =~= digits);
    } else {
        assert(digits.drop_last().take(i) =~= digits.take(i));
        lemma_number_of_prefix(digits.drop_last(), i);
    }
}

/// Reading one digit more multiplies by ten and adds the digit.
pub proof fn lemma_number_of_step(digits: Seq<char>, i: int)
    requires
        0 <= i < digits.len(),
    ensures
        number_of(digits.take(i + 1)) == 10 * number_of(digits.take(i)) + digit_value(digits[i]),
{
    assert(digits.take(i + 1).drop_last() =~= digits.take(i));
}

/// Accepted text holds ASCII characters only.
pub proof fn lemma_decimal_is_ascii(s: Seq<char>)
    requires
        decimal_value(s) is Some,
    ensures
        vstd::utf8::is_ascii_chars(s),
{
    let m = unsigned_text(s);
    let k = leading_digits(m) as int;
    let tail = m.skip(k);
    lemma_leading_digits(m);
    assert forall|i: int| 0 <= i < m.len() implies '\0' <= #[trigger] m[i] <= '\u{7f}' by {
        if i < k {
            assert(is_digit(m[i]));
        } else if i == k {
            assert(m[i] == tail[0]);
        } else {
            assert(m[i] == tail.drop_first()[i - k - 1]);
        }
    }
    assert forall|i: int| 0 <= i < s.len() implies '\0' <= #[trigger] s[i] <= '\u{7f}' by {
        if has_minus(s) && i > 0 {
            assert(s[i] == m[i - 1]);
        }
    }
}

/// Reads the sign and the magnitude of the integer that `value` stands for.
/// The sign is `true` where the text begins with a minus, also for `-0`.
pub fn sign_and_magnitude(value: &str) -> (r: Result<(bool, u128), ErrorKind>)
    ensures
        r == sign_and_magnitude_spec(value@),
{
    let ghost s = value@;
    if !value.is_ascii() {
        proof {
            if decimal_value(s) is Some {
                lemma_decimal_is_ascii(s);
            }
        }
        return Err(ErrorKind::MalformedNumeric);
    }
    let bytes = value.as_bytes();
    let n = bytes.len();
    proof {
        vstd::string::is_ascii_spec_bytes(value);
        assert(n == s.len());
        assert forall|i: int| 0 <= i < n implies bytes@[i] as int == #[trigger] s[i] as int by {
            assert(bytes@[i] == s[i] as u8);
            assert('\0' <= s[i] <= '\u{7f}');
        }
    }
    let start: usize = if n > 0 && bytes[0] == MINUS {
        1
    } else {
        0
    };
    let ghost m = unsigned_text(s);
    assert(m =~= s.skip(start as int));
    let mut end: usize = start;
    while end < n && ZERO <= bytes[end] && bytes[end] <= NINE
        invariant
            start <= end <= n,
            n == bytes@.len(),
            n == s.len(),
            forall|i: int| 0 <= i < n ==> bytes@[i] as int == #[trigger] s[i] as int,
            forall|j: int| start <= j < end ==> is_digit(#[trigger] s[j]),
        decreases n - end,
    {
        end = end + 1;
    }
    let ghost k = end - start;
    proof {
        assert forall|j: int| 0 <= j < k implies is_digit(m[j]) by {
            assert(m[j] == s[start + j]);
        }
        if k < m.len() {
            assert(m[k] == s[end as int]);
        }
        lemma_leading_digits_found(m, k);
    }
    if end == start {
        return Err(ErrorKind::MalformedNumeric);
    }
    let ghost tail = m.skip(k);
    if end < n {
        assert(tail[0] == s[end as int]);
        if bytes[end] != POINT {
            return Err(ErrorKind::MalformedNumeric);
        }
        let mut at: usize = end + 1;
        if at == n {
            return Err(ErrorKind::MalformedNumeric);
        }
        while at < n
            invariant
                start <= end < at <= n,
                s == value@,
                n == bytes@.len(),
                n == s.len(),
                tail == m.skip(k),
                m == unsigned_text(s),
                m == s.skip(start as int),
                k == end - start,
                leading_digits(m) == k,
                forall|i: int| 0 <= i < n ==> bytes@[i] as int == #[trigger] s[i] as int,
                forall|j: int| end < j < at ==> #[trigger] s[j] == '0',
            decreases n - at,
        {
            if bytes[at] != ZERO {
                proof {
                    let zeros = tail.drop_first();
                    assert(zeros[at - end - 1] == s[at as int]);
                    assert(!is_zeros(zeros));
                }
                return Err(ErrorKind::MalformedNumeric);
            }
            at = at + 1;
        }
        proof {
            let zeros = tail.drop_first();
            assert forall|i: int| 0 <= i < zeros.len() implies zeros[i] == '0' by {
                assert(zeros[i] == s[end + 1 + i]);
            }
            assert(is_zeros(zeros));
        }
    }
    let ghost whole = m.take(k);
    let mut magnitude: u128 = 0;
    let mut at: usize = start;
    assert(whole.take(0) =~= Seq::<char>::empty());
    while at < end
        invariant
            start <= at <= end <= n,
            s == value@,
            n == bytes@.len(),
            n == s.len(),
            whole == m.take(k),
            m == s.skip(start as int),
            k == end - start,
            forall|i: int| 0 <= i < n ==> bytes@[i] as int == #[trigger] s[i] as int,
            forall|j: int| start <= j < end ==> is_digit(#[trigger] s[j]),
            magnitude == number_of(whole.take(at - start)),
            decimal_value(s) is Some,
            number_of(whole) == (if decimal_value(s)->Some_0 < 0 {
                -(decimal_value(s)->Some_0)
            } else {
                decimal_value(s)->Some_0
            }),
        decreases end - at,
    {
        assert(is_digit(s[at as int]));
        let digit: u128 = (bytes[at] - ZERO) as u128;
        proof {
            assert(whole[at - start] == s[at as int]);
            assert(digit == digit_value(whole[at - start]));
            lemma_number_of_step(whole, at - start);
            lemma_number_of_prefix(whole, at - start + 1);
        }
        let next = match magnitude.checked_mul(10) {
            Some(tens) => tens.checked_add(digit),
            None => None,
        };
        match next {
            Some(sum) => {
                magnitude = sum;
            },
            None => {
                assert(number_of(whole) > u128::MAX);
                return Err(ErrorKind::OutOfRange);
            },
        }
        at = at + 1;
    }
    assert(whole.take(k) =~= whole);
    Ok((start == 1, magnitude))
}

/// Converts decimal text to an unsigned 128-bit integer: a balance.
///
/// Fails with `MalformedNumeric` where the text is not of the accepted form or
/// does not stand for an integer, and with `OutOfRange` where the integer is
/// negative or above `u128::MAX`.
pub fn to_u128(value: &str) -> (r: Result<u128, ErrorKind>)
    ensures
        r == to_u128_spec(value@),
{
    match sign_and_magnitude(value) {
        Err(e) => Err(e),
        Ok((negative, magnitude)) => {
            if negative && magnitude != 0 {
                Err(ErrorKind::OutOfRange)
            } else {
                Ok(magnitude)
            }
        },
    }
}

/// Converts decimal text to a signed 128-bit integer: a change of a balance.
///
/// Fails with `MalformedNumeric` where the text is not of the accepted form or
/// does not stand for an integer, and with `OutOfRange` where the integer is
/// below `i128::MIN` or above `i128::MAX`.
pub fn to_i128(value: &str) -> (r: Result<i128, ErrorKind>)
    ensures
        r == to_i128_spec(value@),
{
    match sign_and_magnitude(value) {
        Err(e) => Err(e),
        Ok((negative, magnitude)) => {
            if !negative {
                if magnitude <= i128::MAX as u128 {
                    Ok(magnitude as i128)
                } else {
                    Err(ErrorKind::OutOfRange)
                }
            } else if magnitude <= i128::MAX as u128 {
                Ok(-(magnitude as i128))
            } else if magnitude == i128::MAX as u128 + 1 {
                Ok(i128::MIN)
            } else {
                Err(ErrorKind::OutOfRange)
            }
        },
    }
}

/// Converts decimal text to an unsigned 64-bit integer: a block height or a
/// timestamp in nanoseconds.
///
/// Fails with `MalformedNumeric` where the text is not of the accepted form or
/// does not stand for an integer, and with `OutOfRange` where the integer is
/// negative or above `u64::MAX`.
pub fn to_u64(value: &str) -> (r: Result<u64, ErrorKind>)
    ensures
        r == to_u64_spec(value@),
{
    match sign_and_magnitude(value) {
        Err(e) => Err(e),
        Ok((negative, magnitude)) => {
            if negative && magnitude != 0 {
                Err(ErrorKind::OutOfRange)
            } else if magnitude <= u64::MAX as u128 {
                Ok(magnitude as u64)
            } else {
                Err(ErrorKind::OutOfRange)
            }
        },
    }
}

/// The character that writes the digit `d`, for `d` below ten.
pub open spec fn digit_char(d: nat) -> char {
    (d + '0' as nat) as char
}

/// The decimal text of `n`: its digits and nothing else, no leading zero but
/// for `0` itself.
pub open spec fn decimal_text(n: nat) -> Seq<char>
    decreases n,
{
    if n < 10 {
        seq![digit_char(n)]
    } else {
        decimal_text(n / 10).push(digit_char(n % 10))
    }
}

/// The decimal text of `v`: a minus sign where `v` is negative, then the
/// decimal text of its magnitude.
pub open spec fn signed_decimal_text(v: int) -> Seq<char> {
    if v < 0 {
        seq!['-'] + decimal_text((-v) as nat)
    } else {
        decimal_text(v as nat)
    }
}

/// The decimal text of a number is made of digits, and they write that number.
pub proof fn lemma_decimal_text(n: nat)
    ensures
        decimal_text(n).len() > 0,
        forall|i: int| 0 <= i < decimal_text(n).len() ==> is_digit(decimal_text(n)[i]),
        number_of(decimal_text(n)) == n,
    decreases n,
{
    let text = decimal_text(n);
    if n < 10 {
        assert(text.drop_last() =~= Seq::<char>::empty());
        assert(number_of(text) == 10 * number_of(text.drop_last()) + digit_value(text.last()));
    } else {
        lemma_decimal_text(n / 10);
        assert(text.drop_last() =~= decimal_text(n / 10));
        assert(text.last() == digit_char(n % 10));
    }
}

/// Rendering loses nothing: the decimal text of any integer is accepted, and
/// it stands for that integer.
pub proof fn lemma_render_round_trip(v: int)
    ensures
        decimal_value(signed_decimal_text(v)) == Some(v),
{
    let magnitude = (if v < 0 {
        -v
    } else {
        v
    }) as nat;
    let digits = decimal_text(magnitude);
    let s = signed_decimal_text(v);
    lemma_decimal_text(magnitude);
    assert(is_digit(digits[0]));
    if v < 0 {
        assert(s[0] == '-');
        assert(s.drop_first() =~= digits);
    } else {
        assert(s[0] == digits[0]);
    }
    let m = unsigned_text(s);
    assert(m == digits);
    lemma_leading_digits_found(m, m.len() as int);
    assert(m.take(m.len() as int) =~= m);
}

/// Rendering a balance and converting the text gives the balance back.
pub proof fn lemma_u128_round_trip(x: u128)
    ensures
        to_u128_spec(decimal_text(x as nat)) == Ok::<u128, ErrorKind>(x),
{
    lemma_render_round_trip(x as int);
}

/// Rendering a change and converting the text gives the change back.
pub proof fn lemma_i128_round_trip(x: i128)
    ensures
        to_i128_spec(signed_decimal_text(x as int)) == Ok::<i128, ErrorKind>(x),
{
    lemma_render_round_trip(x as int);
}

/// Rendering a height or a timestamp and converting the text gives it back.
pub proof fn lemma_u64_round_trip(x: u64)
    ensures
        to_u64_spec(decimal_text(x as nat)) == Ok::<u64, ErrorKind>(x),
{
    lemma_render_round_trip(x as int);
}

/// The text of one digit.
fn digit_text(d: u8) -> (text: &'static str)
    requires
        d < 10,
    ensures
        text@ == seq![digit_char(d as nat)],
{
    proof {
        reveal_strlit("0");
        reveal_strlit("1");
        reveal_strlit("2");
        reveal_strlit("3");
        reveal_strlit("4");
        reveal_strlit("5");
        reveal_strlit("6");
        reveal_strlit("7");
        reveal_strlit("8");
        reveal_strlit("9");
    }
    let text = match d {
        0 => "0",
        1 => "1",
        2 => "2",
        3 => "3",
        4 => "4",
        5 => "5",
        6 => "6",
        7 => "7",
        8 => "8",
        _ => "9",
    };
    assert(text@ =~= seq![digit_char(d as nat)]);
    text
}

/// Renders a balance as decimal text. [`to_u128`] reads the text back to the
/// same balance.
pub fn render_u128(value: u128) -> (text: String)
    ensures
        text@ == decimal_text(value as nat),
        to_u128_spec(text@) == Ok::<u128, ErrorKind>(value),
    decreases value,
{
    proof {
        lemma_u128_round_trip(value);
    }
    if value < 10 {
        String::from_str(digit_text(value as u8))
    } else {
        let mut text = render_u128(value / 10);
        let last = digit_text((value % 10) as u8);
        text.append(last);
        assert(text@ =~= decimal_text(value as nat));
        text
    }
}

/// Renders a change of a balance as decimal text, with a minus sign where it
/// is negative. [`to_i128`] reads the text back to the same change.
pub fn render_i128(value: i128) -> (text: String)
    ensures
        text@ == signed_decimal_text(value as int),
        to_i128_spec(text@) == Ok::<i128, ErrorKind>(value),
{
    proof {
        lemma_i128_round_trip(value);
    }
    if value < 0 {
        let magnitude: u128 = if value == i128::MIN {
            i128::MAX as u128 + 1
        } else {
            (-value) as u128
        };
        let digits = render_u128(magnitude);
        proof {
            reveal_strlit("-");
        }
        let mut text = String::from_str("-");
        text.append(digits.as_str());
        assert(text@ =~= signed_decimal_text(value as int));
        text
    } else {
        render_u128(value as u128)
    }
}

/// Renders a block height or a timestamp as decimal text. [`to_u64`] reads the
/// text back to the same number.
pub fn render_u64(value: u64) -> (text: String)
    ensures
        text@ == decimal_text(value as nat),
        to_u64_spec(text@) == Ok::<u64, ErrorKind>(value),
{
    proof {
        lemma_u64_round_trip(value);
    }
    render_u128(value as u128)
}

} // verus!
