//! Reading timestamps, whatever notation they come in.
//!
//! A timestamp is a number of milliseconds since the Unix epoch. Sources write it as an
//! integer or a fraction, of seconds or of milliseconds, as a JSON number or as text, or as
//! an ISO 8601 date. A number from zero up to [`SECONDS_END`] is taken for seconds.
use vstd::prelude::*;

use crate::double::Double;
use crate::json::Number;
use crate::json::Value;

verus! {

/// Numbers from zero up to here (the year 5138) count seconds, others milliseconds.
pub const SECONDS_END: i64 = 100_000_000_000;

/// A date and a time in UTC, with a fraction of a second where there is one.
pub const FRACTIONAL_UTC: &'static str = "%Y-%m-%dT%H:%M:%S%.fZ";

/// A date and a time in UTC, in whole seconds.
pub const WHOLE_UTC: &'static str = "%Y-%m-%dT%H:%M:%SZ";

/// Whether a character is one of the ten decimal digits.
pub open spec fn is_digit(c: char) -> bool {
    '0' <= c <= '9'
}

/// The number that a sequence of decimal digits stands for.
pub open spec fn decimal_value(digits: Seq<char>) -> nat
    decreases digits.len(),
{
    if digits.len() == 0 {
        0
    } else {
        10 * decimal_value(digits.drop_last()) + (digits.last() as nat - '0' as nat) as nat
    }
}

/// Whether a text is made of decimal digits, of at least one.
pub open spec fn is_decimal(s: Seq<char>) -> bool {
    s.len() > 0 && forall|i: int| 0 <= i < s.len() ==> is_digit(#[trigger] s[i])
}

/// The integer that a text stands for: digits after an optional sign, and nothing else,
/// within the range of `i64`.
pub open spec fn integer_text(s: Seq<char>) -> Option<i64> {
    let signed = s.len() > 0 && (s[0] == '+' || s[0] == '-');
    let digits = if signed {
        s.skip(1)
    } else {
        s
    };
    let value = if signed && s[0] == '-' {
        -(decimal_value(digits) as int)
    } else {
        decimal_value(digits) as int
    };
    if is_decimal(digits) && i64::MIN <= value <= i64::MAX {
        Some(value as i64)
    } else {
        None
    }
}

/// `str::parse::<i64>`: the integer that the text stands for, as its documentation says: an
/// optional sign followed by only digits, anything else (blanks and underscores included)
/// being an error, and so is a number outside the type's range.
#[verifier::external_body]
fn read_integer(s: &str) -> (r: Option<i64>)
    ensures
        r == integer_text(s@),
{
    s.parse::<i64>().ok()
}

/// The milliseconds since the epoch that `chrono::DateTime::parse_from_rfc3339` followed by
/// `timestamp_millis` finds in a text, if it is a date and time in RFC 3339 notation.
pub uninterp spec fn rfc3339_millis(s: Seq<char>) -> Option<i64>;

/// `chrono::DateTime::parse_from_rfc3339`, with the date turned into its `timestamp_millis`:
/// the outcome depends on the text alone.
#[verifier::external_body]
fn read_rfc3339(s: &str) -> (r: Option<i64>)
    ensures
        r == rfc3339_millis(s@),
{
    chrono::DateTime::parse_from_rfc3339(s).ok().map(|date| date.timestamp_millis())
}

/// The milliseconds since the epoch that `chrono::NaiveDateTime::parse_from_str` followed by
/// `and_utc` and `timestamp_millis` finds in a text, if it is a date and time in the given
/// format.
pub uninterp spec fn formatted_utc_millis(s: Seq<char>, format: Seq<char>) -> Option<i64>;

/// `chrono::NaiveDateTime::parse_from_str`, with the date read as UTC and turned into its
/// `timestamp_millis`: the outcome depends on the text and the format alone. It is asked for
/// the two formats of this module only.
#[verifier::external_body]
fn read_formatted_utc(s: &str, format: &str) -> (r: Option<i64>)
    requires
        format@ == FRACTIONAL_UTC@ || format@ == WHOLE_UTC@,
    ensures
        r == formatted_utc_millis(s@, format@),
{
    chrono::NaiveDateTime::parse_from_str(s, format).ok().map(
        |date| date.and_utc().timestamp_millis(),
    )
}

/// The milliseconds that an integer stands for.
pub open spec fn integer_timestamp(n: i64) -> i64 {
    if 0 <= n < SECONDS_END {
        (n * 1000) as i64
    } else {
        n
    }
}

/// The milliseconds that a finite double stands for: seconds times one thousand in double
/// arithmetic, or the milliseconds themselves, to the nearest integer.
pub open spec fn double_timestamp(d: crate::double::Dyadic) -> i64 {
    if d.in_range_from_zero(SECONDS_END as nat) {
        crate::double::saturated(d.times(1000).rounded())
    } else {
        crate::double::saturated(d.rounded())
    }
}

/// The milliseconds that a JSON number stands for. One that is no `i64` is taken as a double
/// and has to be positive.
pub open spec fn number_timestamp(n: Number) -> Option<i64> {
    match n {
        Number::Unsigned(n) => if n <= i64::MAX {
            Some(integer_timestamp(n as i64))
        } else {
            Some(double_timestamp(crate::double::Dyadic::whole(n as nat).nearest_double()))
        },
        Number::Negative(n) => Some(integer_timestamp(n)),
        Number::Float(bits) => if crate::double::is_finite(bits) && crate::double::double_value(
            bits,
        ).positive() {
            Some(double_timestamp(crate::double::double_value(bits)))
        } else {
            None
        },
    }
}

/// The milliseconds that a text stands for, from what it reads as: an integer first, then
/// (given by its bit pattern) a double, then a date. A text that reads as an infinity or as
/// not a number stands for no time.
pub open spec fn readings_timestamp(
    integer: Option<i64>,
    double: Option<u64>,
    date: Option<i64>,
) -> Option<i64> {
    match (integer, double) {
        (Some(n), _) => Some(integer_timestamp(n)),
        (None, Some(bits)) => if crate::double::is_finite(bits) {
            Some(double_timestamp(crate::double::double_value(bits)))
        } else {
            None
        },
        (None, None) => date,
    }
}

/// The first of three readings of a date that succeeded.
pub open spec fn first_date(
    rfc3339: Option<i64>,
    fractional: Option<i64>,
    whole: Option<i64>,
) -> Option<i64> {
    match (rfc3339, fractional) {
        (Some(date), _) => Some(date),
        (None, Some(date)) => Some(date),
        (None, None) => whole,
    }
}

/// The milliseconds since the epoch of the date that a text writes out.
pub open spec fn date_millis(s: Seq<char>) -> Option<i64> {
    first_date(
        rfc3339_millis(s),
        formatted_utc_millis(s, FRACTIONAL_UTC@),
        formatted_utc_millis(s, WHOLE_UTC@),
    )
}

/// The milliseconds that an integer stands for.
pub fn timestamp_of_integer(n: i64) -> (r: i64)
    ensures
        r == integer_timestamp(n),
{
    if 0 <= n && n < SECONDS_END {
        n * 1000
    } else {
        n
    }
}

/// The milliseconds that a finite double stands for.
fn timestamp_of_double(d: &Double) -> (r: i64)
    requires
        d.significand <= crate::double::SIGNIFICAND_END,
        -1074 <= d.exponent <= 971,
    ensures
        r == double_timestamp(d@),
{
    if d.in_range_from_zero(SECONDS_END as u64) {
        d.times_thousand().round_to_i64()
    } else {
        d.round_to_i64()
    }
}

/// The milliseconds that a JSON number stands for, if any.
pub fn timestamp_of_number(n: &Number) -> (r: Option<i64>)
    ensures
        r == number_timestamp(*n),
{
    match n {
        Number::Unsigned(n) => {
            if *n <= i64::MAX as u64 {
                Some(timestamp_of_integer(*n as i64))
            } else {
                Some(timestamp_of_double(&Double::from_whole(*n)))
            }
        },
        Number::Negative(n) => Some(timestamp_of_integer(*n)),
        Number::Float(bits) => {
            match Double::from_bits(*bits) {
                Some(d) => if d.is_positive() {
                    Some(timestamp_of_double(&d))
                } else {
                    None
                },
                None => None,
            }
        },
    }
}

/// The milliseconds that a text stands for, from what it reads as.
pub fn timestamp_of_readings(integer: Option<i64>, double: Option<u64>, date: Option<i64>) -> (r:
    Option<i64>)
    ensures
        r == readings_timestamp(integer, double, date),
{
    if let Some(n) = integer {
        return Some(timestamp_of_integer(n));
    }
    if let Some(bits) = double {
        return match Double::from_bits(bits) {
            Some(d) => Some(timestamp_of_double(&d)),
            None => None,
        };
    }
    date
}

/// The first of three readings of a date that succeeded.
pub fn date_of_readings(rfc3339: Option<i64>, fractional: Option<i64>, whole: Option<i64>) -> (r:
    Option<i64>)
    ensures
        r == first_date(rfc3339, fractional, whole),
{
    if rfc3339.is_some() {
        rfc3339
    } else if fractional.is_some() {
        fractional
    } else {
        whole
    }
}

/// The milliseconds since the epoch of the date that a text writes out, if it writes one.
pub fn parse_date(s: &str) -> (r: Option<i64>)
    ensures
        r == date_millis(s@),
{
    let rfc3339 = read_rfc3339(s);
    if rfc3339.is_some() {
        return date_of_readings(rfc3339, None, None);
    }
    let fractional = read_formatted_utc(s, FRACTIONAL_UTC);
    if fractional.is_some() {
        return date_of_readings(None, fractional, None);
    }
    date_of_readings(None, None, read_formatted_utc(s, WHOLE_UTC))
}

/// Whether a value is a text that has to be read as a double: one that is no integer.
pub open spec fn asks_for_double(val: crate::json::Json) -> bool {
    val matches crate::json::Json::String(s) && integer_text(s) is None
}

/// The milliseconds that a JSON value stands for, given the bit pattern of the double that its
/// text reads as. Only numbers and texts stand for a time.
pub open spec fn value_timestamp(val: crate::json::Json, double: Option<u64>) -> Option<i64> {
    match val {
        crate::json::Json::Number(n) => number_timestamp(n),
        crate::json::Json::String(s) => readings_timestamp(
            integer_text(s),
            double,
            date_millis(s),
        ),
        _ => None,
    }
}

/// Reads a timestamp from a JSON number or from a text that holds a number or an ISO 8601
/// date. The result counts milliseconds since the Unix epoch; it is `None` for what holds no
/// timestamp.
///
/// `read_double` gives the bit pattern of the double that a text reads as, if it reads as one.
/// It is asked of the value's own text, and only where that is no integer.
#[must_use]
pub fn parse_timestamp<F: Fn(&str) -> Option<u64>>(val: &Value, read_double: F) -> (r: Option<i64>)
    requires
        asks_for_double(val@) ==> forall|text: &str|
            text@ == val@->String_0 ==> #[trigger] call_requires(read_double, (text,)),
    ensures
        !asks_for_double(val@) ==> forall|double: Option<u64>|
            r == #[trigger] value_timestamp(val@, double),
        asks_for_double(val@) ==> exists|text: &str, double: Option<u64>|
            {
                &&& text@ == val@->String_0
                &&& #[trigger] call_ensures(read_double, (text,), double)
                &&& r == value_timestamp(val@, double)
            },
{
    match val {
        Value::Number(n) => timestamp_of_number(n),
        Value::String(s) => {
            let text = s.as_str();
            let integer = read_integer(text);
            if integer.is_some() {
                return timestamp_of_readings(integer, None, None);
            }
            let double = read_double(text);
            let date = if double.is_some() {
                None
            } else {
                parse_date(text)
            };
            timestamp_of_readings(None, double, date)
        },
        _ => None,
    }
}

/// A whole number stands for the same time whether it is written as an integer or as a double.
pub proof fn law_whole_double_reads_as_integer(d: crate::double::Dyadic, n: i64)
    requires
        d.is_integer(n as int),
    ensures
        double_timestamp(d) == integer_timestamp(n),
{
    let bound = SECONDS_END as nat;
    if d.exponent >= 0 {
        let unit = vstd::arithmetic::power2::pow2(d.exponent as nat);
        vstd::arithmetic::power2::lemma_pow2_pos(d.exponent as nat);
        assert(d.significand * unit == 0 <==> d.significand == 0) by (nonlinear_arith)
            requires
                unit > 0,
        ;
    } else {
        let unit = vstd::arithmetic::power2::pow2((-d.exponent) as nat);
        vstd::arithmetic::power2::lemma_pow2_pos((-d.exponent) as nat);
        let m: nat = if n < 0 {
            -(n as int) as nat
        } else {
            n as nat
        };
        assert(m * unit == 0 <==> m == 0) by (nonlinear_arith)
            requires
                unit > 0,
        ;
        assert(m * unit < bound * unit <==> m < bound) by (nonlinear_arith)
            requires
                unit > 0,
        ;
    }
    if 0 <= n < SECONDS_END {
        assert(d.in_range_from_zero(bound));
        crate::double::law_small_product_is_exact(d, n as nat, 1000);
        crate::double::law_integer_is_rounded_to_itself(d.times(1000), n * 1000);
    } else {
        assert(!d.in_range_from_zero(bound));
        crate::double::law_integer_is_rounded_to_itself(d, n as int);
    }
}

/// An integer stands for the same time whether it comes as a JSON number or as text.
pub proof fn law_integer_text_reads_as_number(s: Seq<char>, n: u64)
    requires
        integer_text(s) == Some(n as i64),
        n <= i64::MAX,
    ensures
        forall|double: Option<u64>| #[trigger]
            value_timestamp(crate::json::Json::String(s), double) == value_timestamp(
                crate::json::Json::Number(Number::Unsigned(n)),
                None,
            ),
{
}

/// A negative integer stands for the same time whether it comes as a JSON number or as text.
pub proof fn law_negative_text_reads_as_number(s: Seq<char>, n: i64)
    requires
        integer_text(s) == Some(n),
    ensures
        forall|double: Option<u64>| #[trigger]
            value_timestamp(crate::json::Json::String(s), double) == value_timestamp(
                crate::json::Json::Number(Number::Negative(n)),
                None,
            ),
{
}

/// A positive double stands for the same time whether it comes as a JSON number or as text.
pub proof fn law_double_text_reads_as_number(s: Seq<char>, bits: u64)
    requires
        integer_text(s) is None,
        crate::double::is_finite(bits),
        crate::double::double_value(bits).positive(),
    ensures
        value_timestamp(crate::json::Json::String(s), Some(bits)) == value_timestamp(
            crate::json::Json::Number(Number::Float(bits)),
            None,
        ),
{
}

/// Seconds become milliseconds: what is read of them is their number times one thousand.
pub proof fn law_seconds_become_millis(seconds: i64)
    requires
        0 <= seconds < 100_000_000_000,
    ensures
        integer_timestamp(seconds) == seconds * 1000,
{
}

/// Milliseconds, and all negative numbers, are read as they are.
pub proof fn law_millis_are_kept(millis: i64)
    requires
        millis < 0 || millis >= 100_000_000_000,
    ensures
        integer_timestamp(millis) == millis,
{
}

/// A timestamp that was read once reads the same again, except that of a number of seconds from
/// one up to a hundred million.
pub proof fn law_reading_again_changes_nothing(n: i64)
    requires
        n <= 0 || n >= 100_000_000,
    ensures
        integer_timestamp(integer_timestamp(n)) == integer_timestamp(n),
{
}

/// Of two numbers that count the same unit the greater stands for the later time.
pub proof fn law_order_within_a_unit(a: i64, b: i64)
    requires
        a < b,
        (0 <= a && b < SECONDS_END) || a >= SECONDS_END || b < 0,
    ensures
        integer_timestamp(a) < integer_timestamp(b),
{
}

/// A JSON number stands for no time only if it is a double that is not positive.
pub proof fn law_numbers_without_a_time(n: Number)
    ensures
        number_timestamp(n) is None <==> (n matches Number::Float(bits) && !(
        crate::double::is_finite(bits) && crate::double::double_value(bits).positive())),
{
}

/// A text that reads as a number is never taken for a date.
pub proof fn law_numbers_precede_dates(
    integer: Option<i64>,
    double: Option<u64>,
    date: Option<i64>,
    other: Option<i64>,
)
    requires
        integer is Some || double is Some,
    ensures
        readings_timestamp(integer, double, date) == readings_timestamp(integer, double, other),
{
}

/// Fractional seconds are read to within a millisecond: with `significand / unit` seconds, the
/// timestamp differs by less than one from `1000 * significand / unit`.
pub proof fn law_fraction_is_read_to_the_millisecond(d: crate::double::Dyadic)
    requires
        d.exponent < 0,
        d.in_range_from_zero(SECONDS_END as nat),
    ensures
        ({
            let unit = vstd::arithmetic::power2::pow2((-d.exponent) as nat);
            let millis = double_timestamp(d);
            &&& 0 <= millis <= 1000 * SECONDS_END
            &&& -(unit as int) < millis * unit - 1000 * d.significand < unit
        }),
{
    let k = (-d.exponent) as nat;
    let unit = vstd::arithmetic::power2::pow2(k);
    let exact = crate::double::Dyadic { significand: d.significand * 1000, ..d };
    let product = d.times(1000);
    let excess = crate::double::excess_bits(exact.significand);
    let last = vstd::arithmetic::power2::pow2(excess);
    vstd::arithmetic::power2::lemma_pow2_pos(k);
    vstd::arithmetic::power2::lemma_pow2_pos(excess);
    vstd::arithmetic::power2::lemma2_to64();
    crate::double::law_nearest_double(exact);
    assert(exact.significand < 100_000_000_000_000 * unit) by (nonlinear_arith)
        requires
            exact.significand == d.significand * 1000,
            d.significand < 100_000_000_000 * unit,
    ;
    if excess >= k {
        // The product would have too many digits before the point.
        assert(excess > 0);
        assert(last >= unit) by {
            if excess > k {
                vstd::arithmetic::power2::lemma_pow2_strictly_increases(k, excess);
            }
        }
        assert(false) by (nonlinear_arith)
            requires
                product.significand >= 0x10_0000_0000_0000,
                2 * (product.significand * last - exact.significand) <= last,
                exact.significand < 100_000_000_000_000 * unit,
                last >= unit,
                unit > 0,
        ;
    }
    let rest = (k - excess) as nat;
    let step = vstd::arithmetic::power2::pow2(rest);
    let millis = product.rounded_magnitude();
    vstd::arithmetic::power2::lemma_pow2_unfold(rest);
    vstd::arithmetic::power2::lemma_pow2_pos((rest - 1) as nat);
    vstd::arithmetic::power2::lemma_pow2_adds(excess, rest);
    crate::double::law_rounded_is_nearest(product);
    assert(-(unit as int) < millis * unit - exact.significand < unit) by (nonlinear_arith)
        requires
            unit == last * step,
            step >= 2,
            last > 0,
            -(last as int) <= 2 * (product.significand * last - exact.significand) <= last,
            -(step as int) <= 2 * (product.significand - millis * step) < step,
    ;
    assert(millis <= 100_000_000_000_000) by (nonlinear_arith)
        requires
            millis * unit - exact.significand < unit,
            exact.significand < 100_000_000_000_000 * unit,
            unit > 0,
    ;
    if d.negative {
        assert(exact.significand == 0);
        assert(millis == 0) by (nonlinear_arith)
            requires
                millis * unit - 0 < unit,
                unit > 0,
        ;
    }
}

/// A text that is no integer and reads as no double stands for the date that is read in it: the one
/// in RFC 3339 notation, failing that the one in UTC with a fraction of a second, failing that the
/// one in UTC in whole seconds, each in the milliseconds that the reading gave, unchanged.
pub proof fn law_dates_are_kept_in_millis(s: Seq<char>)
    requires
        integer_text(s) is None,
    ensures
        rfc3339_millis(s) matches Some(millis) ==> value_timestamp(
            crate::json::Json::String(s),
            None,
        ) == Some(millis),
        rfc3339_millis(s) is None ==> (formatted_utc_millis(
            s,
            "%Y-%m-%dT%H:%M:%S%.fZ"@,
        ) matches Some(millis) ==> value_timestamp(crate::json::Json::String(s), None) == Some(
            millis,
        )),
        rfc3339_millis(s) is None && formatted_utc_millis(s, "%Y-%m-%dT%H:%M:%S%.fZ"@) is None ==> (
        formatted_utc_millis(s, "%Y-%m-%dT%H:%M:%SZ"@) matches Some(millis) ==> value_timestamp(
            crate::json::Json::String(s),
            None,
        ) == Some(millis)),
        rfc3339_millis(s) is None && formatted_utc_millis(s, "%Y-%m-%dT%H:%M:%S%.fZ"@) is None
            && formatted_utc_millis(s, "%Y-%m-%dT%H:%M:%SZ"@) is None ==> value_timestamp(
            crate::json::Json::String(s),
            None,
        ) is None,
{
}

/// Reading a date alone gives the same as reading a timestamp that is a date.
pub proof fn law_dates_read_alone(s: Seq<char>)
    ensures
        rfc3339_millis(s) is Some ==> date_millis(s) == rfc3339_millis(s),
        integer_text(s) is None ==> date_millis(s) == value_timestamp(
            crate::json::Json::String(s),
            None,
        ),
{
}

/// The first reading of a date that succeeded is the one that counts, unchanged.
pub proof fn law_first_date_counts(a: i64, b: Option<i64>, c: Option<i64>)
    ensures
        first_date(Some(a), b, c) == Some(a),
        first_date(None, Some(a), c) == Some(a),
        first_date(None, None, c) == c,
{
}

/// What a text reads as decides what it stands for: an integer whatever else it reads as; without
/// one a double, in which case an infinity or what is not a number stands for no time; and without
/// either the date, unchanged.
pub proof fn law_readings_decide(
    n: i64,
    bits: u64,
    double: Option<u64>,
    date: Option<i64>,
    negative: bool,
    exponent: nat,
    fraction: nat,
)
    requires
        exponent < 0x800,
        fraction < 0x10_0000_0000_0000,
        bits == (if negative {
            0x8000_0000_0000_0000int
        } else {
            0
        }) + exponent * 0x10_0000_0000_0000 + fraction,
    ensures
        0 <= n < 100_000_000_000 ==> readings_timestamp(Some(n), double, date) == Some(
            (n * 1000) as i64,
        ),
        n < 0 || n >= 100_000_000_000 ==> readings_timestamp(Some(n), double, date) == Some(n),
        exponent == 0x7ff ==> readings_timestamp(None, Some(bits), date) is None,
        exponent != 0x7ff ==> readings_timestamp(None, Some(bits), date) == Some(
            double_timestamp(crate::double::double_value(bits)),
        ),
        readings_timestamp(None, None, date) == date,
{
    crate::double::law_bit_patterns(bits, negative, exponent, fraction);
}

/// A text stands for what it reads as: an integer from zero up to a hundred billion for that many
/// seconds, another integer for that many milliseconds, and a double, where it is no integer, for
/// the time of the double.
pub proof fn law_numeric_texts(
    s: Seq<char>,
    n: i64,
    bits: u64,
    double: Option<u64>,
    negative: bool,
    exponent: nat,
    fraction: nat,
)
    requires
        exponent < 0x800,
        fraction < 0x10_0000_0000_0000,
        bits == (if negative {
            0x8000_0000_0000_0000int
        } else {
            0
        }) + exponent * 0x10_0000_0000_0000 + fraction,
    ensures
        asks_for_double(crate::json::Json::String(s)) <==> integer_text(s) is None,
        integer_text(s) == Some(n) && 0 <= n < 100_000_000_000 ==> value_timestamp(
            crate::json::Json::String(s),
            double,
        ) == Some((n * 1000) as i64),
        integer_text(s) == Some(n) && (n < 0 || n >= 100_000_000_000) ==> value_timestamp(
            crate::json::Json::String(s),
            double,
        ) == Some(n),
        integer_text(s) is None && exponent == 0x7ff ==> value_timestamp(
            crate::json::Json::String(s),
            Some(bits),
        ) is None,
        integer_text(s) is None && exponent != 0x7ff ==> value_timestamp(
            crate::json::Json::String(s),
            Some(bits),
        ) == Some(double_timestamp(crate::double::double_value(bits))),
{
    crate::double::law_bit_patterns(bits, negative, exponent, fraction);
}

/// A JSON integer from zero up to a hundred billion stands for that many seconds, another one for
/// that many milliseconds, and one beyond `i64` for the latest time there is.
pub proof fn law_json_integers(n: u64, m: i64, double: Option<u64>)
    ensures
        n < 100_000_000_000 ==> value_timestamp(
            crate::json::Json::Number(Number::Unsigned(n)),
            double,
        ) == Some((n * 1000) as i64),
        100_000_000_000 <= n <= 0x7fff_ffff_ffff_ffff ==> value_timestamp(
            crate::json::Json::Number(Number::Unsigned(n)),
            double,
        ) == Some(n as i64),
        n > 0x7fff_ffff_ffff_ffff ==> value_timestamp(
            crate::json::Json::Number(Number::Unsigned(n)),
            double,
        ) == Some(0x7fff_ffff_ffff_ffffi64),
        m < 0 || m >= 100_000_000_000 ==> value_timestamp(
            crate::json::Json::Number(Number::Negative(m)),
            double,
        ) == Some(m),
        0 <= m < 100_000_000_000 ==> value_timestamp(
            crate::json::Json::Number(Number::Negative(m)),
            double,
        ) == Some((m * 1000) as i64),
{
    if n > 0x7fff_ffff_ffff_ffff {
        lemma_beyond_range(n as nat);
    }
}

/// The double nearest to a whole number beyond `i64` lies beyond `i64` too.
proof fn lemma_beyond_range(n: nat)
    requires
        0x7fff_ffff_ffff_ffff < n <= 0xffff_ffff_ffff_ffff,
    ensures
        double_timestamp(crate::double::Dyadic::whole(n).nearest_double()) == i64::MAX,
{
    let x = crate::double::Dyadic::whole(n);
    let d = x.nearest_double();
    let excess = crate::double::excess_bits(n);
    let unit = vstd::arithmetic::power2::pow2(excess);
    vstd::arithmetic::power2::lemma2_to64();
    vstd::arithmetic::power2::lemma2_to64_rest();
    crate::double::law_nearest_double(x);
    if excess < 11 {
        vstd::arithmetic::power2::lemma_pow2_strictly_increases(excess, 11);
        assert(unit <= 1024) by {
            if excess < 10 {
                vstd::arithmetic::power2::lemma_pow2_strictly_increases(excess, 10);
            }
        }
        assert(false) by (nonlinear_arith)
            requires
                n < 0x20_0000_0000_0000 * unit,
                unit <= 1024,
                n >= 0x8000_0000_0000_0000,
        ;
    }
    assert(unit >= 2048) by {
        if excess > 11 {
            vstd::arithmetic::power2::lemma_pow2_strictly_increases(11, excess);
        }
    }
    assert(d.significand * unit >= 0x8000_0000_0000_0000) by (nonlinear_arith)
        requires
            d.significand >= 0x10_0000_0000_0000,
            unit >= 2048,
    ;
}

/// A JSON double stands for a time if it is finite and greater than zero, and then for the time of
/// the double.
pub proof fn law_json_doubles(
    bits: u64,
    double: Option<u64>,
    negative: bool,
    exponent: nat,
    fraction: nat,
)
    requires
        exponent < 0x800,
        fraction < 0x10_0000_0000_0000,
        bits == (if negative {
            0x8000_0000_0000_0000int
        } else {
            0
        }) + exponent * 0x10_0000_0000_0000 + fraction,
    ensures
        negative || exponent == 0x7ff || (exponent == 0 && fraction == 0) ==> value_timestamp(
            crate::json::Json::Number(Number::Float(bits)),
            double,
        ) is None,
        !negative && exponent != 0x7ff && (exponent > 0 || fraction > 0) ==> value_timestamp(
            crate::json::Json::Number(Number::Float(bits)),
            double,
        ) == Some(double_timestamp(crate::double::double_value(bits))),
{
    crate::double::law_bit_patterns(bits, negative, exponent, fraction);
}

/// What is neither a number nor a text stands for no time.
pub proof fn law_other_values_hold_no_time(val: crate::json::Json, double: Option<u64>)
    requires
        !(val is Number),
        !(val is String),
    ensures
        value_timestamp(val, double) is None,
        !asks_for_double(val),
{
}

/// A double from zero up to a hundred billion stands for that many seconds. With `q * 2^x` the
/// double nearest to a thousand times its significand, ties going to the even one, the timestamp is
/// the integer nearest to that product, halves going up.
pub proof fn law_double_seconds(d: crate::double::Dyadic) -> (r: (nat, nat))
    requires
        d.negative ==> d.significand == 0,
        d.exponent >= 0 ==> d.significand * vstd::arithmetic::power2::pow2(d.exponent as nat)
            < 100_000_000_000,
        d.exponent < 0 ==> d.significand < 100_000_000_000 * vstd::arithmetic::power2::pow2(
            (-d.exponent) as nat,
        ),
    ensures
        ({
            let (q, x) = r;
            let last = vstd::arithmetic::power2::pow2(x);
            let exact = 1000 * d.significand;
            let millis = double_timestamp(d);
            &&& exact < 0x20_0000_0000_0000 * last
            &&& x > 0 ==> 0x10_0000_0000_0000 * last <= exact
            &&& -(last as int) <= 2 * (q * last - exact) <= last
            &&& (2 * (q * last - exact) == last || 2 * (exact - q * last) == last) ==> q % 2 == 0
            &&& d.exponent + x >= 0 ==> millis == q * vstd::arithmetic::power2::pow2(
                (d.exponent + x) as nat,
            )
            &&& d.exponent + x < 0 ==> {
                let unit = vstd::arithmetic::power2::pow2((-(d.exponent + x)) as nat);
                -(unit as int) <= 2 * (q - millis * unit) < unit
            }
        }),
{
    let exact = crate::double::Dyadic { significand: d.significand * 1000, ..d };
    let product = d.times(1000);
    let x = crate::double::excess_bits(exact.significand);
    vstd::arithmetic::power2::lemma2_to64();
    crate::double::law_nearest_double(exact);
    crate::double::law_rounded_is_nearest(product);
    assert(d.in_range_from_zero(SECONDS_END as nat));
    if d.exponent >= 0 {
        let unit = vstd::arithmetic::power2::pow2(d.exponent as nat);
        vstd::arithmetic::power2::lemma_pow2_pos(d.exponent as nat);
        assert(d.significand <= d.significand * unit) by (nonlinear_arith)
            requires
                unit > 0,
        ;
        assert(x == 0);
        assert((d.significand * 1000) * unit == 1000 * (d.significand * unit)) by (nonlinear_arith);
    } else {
        law_fraction_is_read_to_the_millisecond(d);
    }
    if d.negative {
        assert(x == 0);
        assert(product.significand == 0);
        if d.exponent >= 0 {
            assert(0 * vstd::arithmetic::power2::pow2(d.exponent as nat) == 0);
        }
    }
    (product.significand, x)
}

/// A double below zero or from a hundred billion on stands for that many milliseconds: the nearest
/// integer, halves going away from zero, or the bound of `i64` that it lies beyond.
pub proof fn law_double_millis(d: crate::double::Dyadic) -> (n: nat)
    requires
        (d.negative && d.significand > 0) || (d.exponent >= 0 && d.significand
            * vstd::arithmetic::power2::pow2(d.exponent as nat) >= 100_000_000_000) || (d.exponent
            < 0 && d.significand >= 100_000_000_000 * vstd::arithmetic::power2::pow2(
            (-d.exponent) as nat,
        )),
    ensures
        d.exponent >= 0 ==> n == d.significand * vstd::arithmetic::power2::pow2(d.exponent as nat),
        d.exponent < 0 ==> {
            let unit = vstd::arithmetic::power2::pow2((-d.exponent) as nat);
            -(unit as int) <= 2 * (d.significand - n * unit) < unit
        },
        !d.negative && n <= 0x7fff_ffff_ffff_ffff ==> double_timestamp(d) == n,
        !d.negative && n > 0x7fff_ffff_ffff_ffff ==> double_timestamp(d) == 0x7fff_ffff_ffff_ffff,
        d.negative && n <= 0x8000_0000_0000_0000 ==> double_timestamp(d) == -(n as int),
        d.negative && n > 0x8000_0000_0000_0000 ==> double_timestamp(d)
            == -0x8000_0000_0000_0000,
{
    crate::double::law_rounded_is_nearest(d);
    if d.exponent < 0 {
        vstd::arithmetic::power2::lemma_pow2_pos((-d.exponent) as nat);
        let unit = vstd::arithmetic::power2::pow2((-d.exponent) as nat);
        assert(100_000_000_000 * unit > 0) by (nonlinear_arith)
            requires
                unit > 0,
        ;
    } else {
        assert(0 * vstd::arithmetic::power2::pow2(d.exponent as nat) == 0);
    }
    assert(!d.in_range_from_zero(SECONDS_END as nat));
    d.rounded_magnitude()
}

/// A single digit, with or without a sign before it, reads as its number.
pub proof fn law_single_digits(c: char)
    requires
        '0' <= c <= '9',
    ensures
        integer_text(seq![c]) == Some((c as int - '0' as int) as i64),
        integer_text(seq!['+', c]) == Some((c as int - '0' as int) as i64),
        integer_text(seq!['-', c]) == Some(('0' as int - c as int) as i64),
{
    let one = seq![c];
    reveal_with_fuel(decimal_value, 2);
    assert(one.drop_last() =~= Seq::empty());
    assert(seq!['+', c].skip(1) =~= one);
    assert(seq!['-', c].skip(1) =~= one);
    assert(is_decimal(one));
}

/// One more digit makes the number ten times as large and adds itself, away from zero behind a
/// minus sign, as long as the result is within `i64`; otherwise the text reads as no integer.
pub proof fn law_one_more_digit(s: Seq<char>, n: i64, c: char)
    requires
        integer_text(s) == Some(n),
        '0' <= c <= '9',
    ensures
        ({
            let digit = c as int - '0' as int;
            let next = if s[0] == '-' {
                10 * n - digit
            } else {
                10 * n + digit
            };
            &&& -0x8000_0000_0000_0000 <= next <= 0x7fff_ffff_ffff_ffff ==> integer_text(s.push(c))
                == Some(next as i64)
            &&& !(-0x8000_0000_0000_0000 <= next <= 0x7fff_ffff_ffff_ffff) ==> integer_text(
                s.push(c),
            ) is None
        }),
{
    let t = s.push(c);
    let signed = s[0] == '+' || s[0] == '-';
    let digits = if signed {
        s.skip(1)
    } else {
        s
    };
    let more = if signed {
        t.skip(1)
    } else {
        t
    };
    assert(s.len() > 0);
    assert(t[0] == s[0]);
    assert(more =~= digits.push(c));
    assert(more.drop_last() =~= digits);
    assert(is_decimal(more)) by {
        assert forall|i: int| 0 <= i < more.len() implies is_digit(#[trigger] more[i]) by {
            if i < digits.len() {
                assert(is_digit(digits[i]));
            }
        }
    }
}

/// No text reads as an integer that is empty, is a sign alone, holds anything but a digit after its
/// first character, or starts with anything but a digit or a sign.
pub proof fn law_texts_that_are_no_integers(s: Seq<char>, i: int)
    ensures
        integer_text(Seq::empty()) is None,
        s.len() == 1 && !('0' <= s[0] <= '9') ==> integer_text(s) is None,
        1 <= i < s.len() && !('0' <= s[i] <= '9') ==> integer_text(s) is None,
        s.len() > 0 && !('0' <= s[0] <= '9') && s[0] != '+' && s[0] != '-' ==> integer_text(s)
            is None,
{
    if 1 <= i < s.len() && !('0' <= s[i] <= '9') {
        assert(!is_digit(s[i]));
        assert(s.skip(1)[i - 1] == s[i]);
    }
    if s.len() > 0 && !('0' <= s[0] <= '9') {
        assert(!is_digit(s[0]));
    }
}

/// A text that reads as no integer does not become one by another character at its end, unless it
/// is empty or a sign alone.
pub proof fn law_no_integer_by_one_more_character(s: Seq<char>, c: char)
    requires
        integer_text(s) is None,
        s.len() > 1 || (s.len() == 1 && s[0] != '+' && s[0] != '-'),
    ensures
        integer_text(s.push(c)) is None,
{
    let t = s.push(c);
    let signed = s[0] == '+' || s[0] == '-';
    let digits = if signed {
        s.skip(1)
    } else {
        s
    };
    let more = if signed {
        t.skip(1)
    } else {
        t
    };
    assert(t[0] == s[0]);
    assert(more =~= digits.push(c));
    assert(more.drop_last() =~= digits);
    if is_decimal(more) {
        assert(is_decimal(digits)) by {
            assert forall|i: int| 0 <= i < digits.len() implies is_digit(#[trigger] digits[i]) by {
                assert(is_digit(more[i]));
            }
        }
        assert(decimal_value(more) >= decimal_value(digits));
    }
}

}
