//! Parsing of the scalar values of systemd options: integers, booleans,
//! file modes and durations.
use vstd::prelude::*;

use crate::text::{
    ascii_lower, cat, cat3, chars_of, char_is_alpha, char_is_digit, is_alpha, is_digit, leading_space,
    lower_all, trailing_space,
    own, skip_space, slice_eq_str, trim, trim_end_index, trim_start,
};

verus! {

/// Why a string is not an integer of the requested type.
#[derive(Clone, Copy, PartialEq, Eq, Structural, Debug)]
pub enum IntErrorKind {
    Empty,
    InvalidDigit,
    PosOverflow,
    NegOverflow,
}

/// The message of an integer parse error.
pub open spec fn int_error_msg(k: IntErrorKind) -> Seq<char> {
    match k {
        IntErrorKind::Empty => "cannot parse integer from empty string"@,
        IntErrorKind::InvalidDigit => "invalid digit found in string"@,
        IntErrorKind::PosOverflow => "number too large to fit in target type"@,
        IntErrorKind::NegOverflow => "number too small to fit in target type"@,
    }
}

/// Builds `int_error_msg(k)`.
pub fn int_error_text(k: IntErrorKind) -> (r: String)
    ensures
        r@ == int_error_msg(k),
{
    match k {
        IntErrorKind::Empty => own("cannot parse integer from empty string"),
        IntErrorKind::InvalidDigit => own("invalid digit found in string"),
        IntErrorKind::PosOverflow => own("number too large to fit in target type"),
        IntErrorKind::NegOverflow => own("number too small to fit in target type"),
    }
}

/// The value of digit `c` in base `radix` (at most 10), if it is one.
pub open spec fn digit_in(c: char, radix: nat) -> Option<nat> {
    if 48 <= (c as u32) && (c as u32) < 48 + radix {
        Some(((c as u32) - 48) as nat)
    } else {
        None
    }
}

/// Reads `digits` left to right onto `acc`, failing at the first
/// character that is not a digit or the first step that leaves `lo..=hi`.
pub open spec fn scan_digits(digits: Seq<char>, radix: nat, neg: bool, lo: int, hi: int, acc: int) -> Result<int, IntErrorKind>
    decreases digits.len(),
{
    if digits.len() == 0 {
        Ok(acc)
    } else {
        match digit_in(digits[0], radix) {
            None => Err(IntErrorKind::InvalidDigit),
            Some(d) => {
                let next = if neg { acc * radix - d } else { acc * radix + d };
                if next < lo {
                    Err(IntErrorKind::NegOverflow)
                } else if next > hi {
                    Err(IntErrorKind::PosOverflow)
                } else {
                    scan_digits(digits.drop_first(), radix, neg, lo, hi, next)
                }
            },
        }
    }
}

/// An integer in `lo..=hi` written in base `radix`: an optional `+` (or
/// `-` when `signed`) and digits, as `from_str_radix` reads it.
pub open spec fn parse_int_spec(s: Seq<char>, radix: nat, signed: bool, lo: int, hi: int) -> Result<int, IntErrorKind> {
    if s.len() == 0 {
        Err(IntErrorKind::Empty)
    } else if s.len() == 1 && (s[0] == '+' || s[0] == '-') {
        Err(IntErrorKind::InvalidDigit)
    } else if s[0] == '+' {
        scan_digits(s.drop_first(), radix, false, lo, hi, 0)
    } else if s[0] == '-' && signed {
        scan_digits(s.drop_first(), radix, true, lo, hi, 0)
    } else {
        scan_digits(s, radix, false, lo, hi, 0)
    }
}

/// Parses an integer in `lo..=hi` written in base `radix` (2 to 10).
pub fn parse_int(s: &str, radix: u32, signed: bool, lo: i128, hi: i128) -> (r: Result<i128, IntErrorKind>)
    requires
        2 <= radix <= 10,
        -0x1_0000_0000_0000_0000 <= lo <= 0 <= hi <= 0x1_0000_0000_0000_0000,
    ensures
        match r {
            Ok(v) => parse_int_spec(s@, radix as nat, signed, lo as int, hi as int) == Ok::<int, IntErrorKind>(v as int),
            Err(k) => parse_int_spec(s@, radix as nat, signed, lo as int, hi as int) == Err::<int, IntErrorKind>(k),
        },
        r matches Ok(v) ==> lo <= v <= hi,
{
    let cs = chars_of(s);
    if cs.len() == 0 {
        return Err(IntErrorKind::Empty);
    }
    if cs.len() == 1 && (cs[0] == '+' || cs[0] == '-') {
        return Err(IntErrorKind::InvalidDigit);
    }
    let mut i: usize = 0;
    let mut neg = false;
    if cs[0] == '+' {
        i = 1;
    } else if cs[0] == '-' && signed {
        i = 1;
        neg = true;
    }
    let ghost digits = cs@.skip(i as int);
    proof {
        if i == 1 {
            assert(cs@.drop_first() =~= cs@.skip(1));
        } else {
            assert(cs@.skip(0) =~= cs@);
        }
    }
    let mut acc: i128 = 0;
    while i < cs.len()
        invariant
            i <= cs@.len(),
            lo <= acc <= hi,
            -0x1_0000_0000_0000_0000 <= lo <= 0 <= hi <= 0x1_0000_0000_0000_0000,
            2 <= radix <= 10,
            parse_int_spec(s@, radix as nat, signed, lo as int, hi as int) == scan_digits(digits, radix as nat, neg, lo as int, hi as int, 0),
            scan_digits(digits, radix as nat, neg, lo as int, hi as int, 0) == scan_digits(cs@.skip(i as int), radix as nat, neg, lo as int, hi as int, acc as int),
        decreases cs.len() - i,
    {
        let c = cs[i];
        assert(cs@.skip(i as int)[0] == c);
        assert(cs@.skip(i as int).drop_first() =~= cs@.skip(i + 1));
        let code: u32 = c as u32;
        if !(48 <= code && code < 48 + radix) {
            assert(digit_in(c, radix as nat) is None);
            return Err(IntErrorKind::InvalidDigit);
        }
        assert(digit_in(c, radix as nat) == Some::<nat>((code - 48) as nat));
        let d: i128 = (code - 48) as i128;
        let rr: i128 = radix as i128;
        assert(-0x10_0000_0000_0000_0000 <= acc * rr <= 0x10_0000_0000_0000_0000) by (nonlinear_arith)
            requires
                -0x1_0000_0000_0000_0000 <= acc <= 0x1_0000_0000_0000_0000,
                2 <= rr <= 10,
        ;
        let next: i128 = if neg { acc * rr - d } else { acc * rr + d };
        if next < lo {
            return Err(IntErrorKind::NegOverflow);
        }
        if next > hi {
            return Err(IntErrorKind::PosOverflow);
        }
        acc = next;
        i = i + 1;
    }
    Ok(acc)
}

/// `s` as a `u32` (`str::parse::<u32>`).
pub fn parse_u32(s: &str) -> (r: Result<u32, IntErrorKind>)
    ensures
        match r {
            Ok(v) => parse_int_spec(s@, 10, false, 0, u32::MAX as int) == Ok::<int, IntErrorKind>(v as int),
            Err(k) => parse_int_spec(s@, 10, false, 0, u32::MAX as int) == Err::<int, IntErrorKind>(k),
        },
{
    match parse_int(s, 10, false, 0, 0xffff_ffff) {
        Ok(v) => Ok(v as u32),
        Err(k) => Err(k),
    }
}

/// `s` as an `i32` (`str::parse::<i32>`).
pub fn parse_i32(s: &str) -> (r: Result<i32, IntErrorKind>)
    ensures
        match r {
            Ok(v) => parse_int_spec(s@, 10, true, i32::MIN as int, i32::MAX as int) == Ok::<int, IntErrorKind>(v as int),
            Err(k) => parse_int_spec(s@, 10, true, i32::MIN as int, i32::MAX as int) == Err::<int, IntErrorKind>(k),
        },
{
    match parse_int(s, 10, true, -0x8000_0000, 0x7fff_ffff) {
        Ok(v) => Ok(v as i32),
        Err(k) => Err(k),
    }
}

/// `s` as a `u64` (`str::parse::<u64>`).
pub fn parse_u64(s: &str) -> (r: Result<u64, IntErrorKind>)
    ensures
        match r {
            Ok(v) => parse_int_spec(s@, 10, false, 0, u64::MAX as int) == Ok::<int, IntErrorKind>(v as int),
            Err(k) => parse_int_spec(s@, 10, false, 0, u64::MAX as int) == Err::<int, IntErrorKind>(k),
        },
{
    match parse_int(s, 10, false, 0, 0xffff_ffff_ffff_ffff) {
        Ok(v) => Ok(v as u64),
        Err(k) => Err(k),
    }
}

/// `s` as a `u32` in base `radix` (`u32::from_str_radix`).
pub fn u32_from_str_radix(s: &str, radix: u32) -> (r: Result<u32, IntErrorKind>)
    requires
        2 <= radix <= 10,
    ensures
        match r {
            Ok(v) => parse_int_spec(s@, radix as nat, false, 0, u32::MAX as int) == Ok::<int, IntErrorKind>(v as int),
            Err(k) => parse_int_spec(s@, radix as nat, false, 0, u32::MAX as int) == Err::<int, IntErrorKind>(k),
        },
{
    match parse_int(s, radix, false, 0, 0xffff_ffff) {
        Ok(v) => Ok(v as u32),
        Err(k) => Err(k),
    }
}

/// The one value of an option that takes one.
pub fn expect_one<'a>(name: &str, values: &'a [String]) -> (r: Result<&'a str, String>)
    ensures
        values@.len() == 1 ==> (r matches Ok(v) && v@ == values@[0]@),
        values@.len() == 0 ==> (r matches Err(e) && e@ == name@ + " requires one value"@),
        values@.len() > 1 ==> (r matches Err(e) && e@ == name@ + " accepts only one value"@),
{
    if values.len() == 1 {
        Ok(values[0].as_str())
    } else if values.len() == 0 {
        Err(cat(name, " requires one value"))
    } else {
        Err(cat(name, " accepts only one value"))
    }
}

/// The message for a value that is not a boolean.
pub open spec fn bool_error_msg(name: Seq<char>, value: Seq<char>) -> Seq<char> {
    "invalid boolean for "@ + name + ": `"@ + value + "`"@
}

/// The truth values systemd accepts, case aside: `1`, `true`, `yes`, `on`
/// and `0`, `false`, `no`, `off`.
pub open spec fn parse_bool_spec(value: Seq<char>) -> Option<bool> {
    let l = lower_all(value);
    if l == "1"@ || l == "true"@ || l == "yes"@ || l == "on"@ {
        Some(true)
    } else if l == "0"@ || l == "false"@ || l == "no"@ || l == "off"@ {
        Some(false)
    } else {
        None
    }
}

/// Parses a systemd boolean.
pub fn parse_bool(name: &str, value: &str) -> (r: Result<bool, String>)
    ensures
        match parse_bool_spec(value@) {
            Some(b) => r == Ok::<bool, String>(b),
            None => r matches Err(e) && e@ == bool_error_msg(name@, value@),
        },
{
    let l = ascii_lower(value);
    let n = l.len();
    if slice_eq_str(&l, 0, n, "1") || slice_eq_str(&l, 0, n, "true") || slice_eq_str(&l, 0, n, "yes")
        || slice_eq_str(&l, 0, n, "on") {
        assert(l@.subrange(0, n as int) =~= l@);
        return Ok(true);
    }
    if slice_eq_str(&l, 0, n, "0") || slice_eq_str(&l, 0, n, "false") || slice_eq_str(&l, 0, n, "no")
        || slice_eq_str(&l, 0, n, "off") {
        assert(l@.subrange(0, n as int) =~= l@);
        return Ok(false);
    }
    assert(l@.subrange(0, n as int) =~= l@);
    let a = cat3("invalid boolean for ", name, ": `");
    Err(cat3(a.as_str(), value, "`"))
}

/// The base and digits of a file mode: `0o`/`0O` or a leading `0` means
/// octal, anything else decimal.
pub open spec fn mode_parts(t: Seq<char>) -> (nat, Seq<char>) {
    if t.len() >= 2 && t[0] == '0' && (t[1] == 'o' || t[1] == 'O') {
        (8, t.skip(2))
    } else if t.len() > 1 && t[0] == '0' {
        (8, t)
    } else {
        (10, t)
    }
}

/// What `parse_mode` gives.
pub open spec fn parse_mode_spec(name: Seq<char>, value: Seq<char>) -> Result<u32, Seq<char>> {
    let (radix, digits) = mode_parts(trim(value));
    match parse_int_spec(digits, radix, false, 0, u32::MAX as int) {
        Ok(v) => Ok(v as u32),
        Err(k) => Err("invalid mode for "@ + name + ": "@ + int_error_msg(k)),
    }
}

/// Parses a file mode such as `0755` or `0o755`.
pub fn parse_mode(name: &str, value: &str) -> (r: Result<u32, String>)
    ensures
        match r {
            Ok(v) => parse_mode_spec(name@, value@) == Ok::<u32, Seq<char>>(v),
            Err(e) => parse_mode_spec(name@, value@) == Err::<u32, Seq<char>>(e@),
        },
{
    let cs = chars_of(value);
    let start = skip_space(&cs, 0);
    let end = trim_end_index(&cs, start);
    proof {
        assert(cs@.skip(0) =~= cs@);
        assert(trim(value@) =~= cs@.subrange(start as int, end as int));
    }
    let mut radix: u32 = 10;
    let mut from: usize = start;
    if end - start >= 2 && cs[start] == '0' && (cs[start + 1] == 'o' || cs[start + 1] == 'O') {
        radix = 8;
        from = start + 2;
    } else if end - start > 1 && cs[start] == '0' {
        radix = 8;
    }
    let digits = crate::text::string_of(&cs, from, end);
    proof {
        let t = trim(value@);
        assert(t.len() == end - start);
        if end - start >= 2 {
            assert(t[0] == cs@[start as int]);
            assert(t[1] == cs@[start + 1]);
        } else if end - start > 1 {
            assert(t[0] == cs@[start as int]);
        }
        if from == start + 2 {
            assert(t.skip(2) =~= cs@.subrange(from as int, end as int));
        }
        assert(mode_parts(t).0 == radix as nat);
        assert(mode_parts(t).1 =~= digits@);
    }
    match u32_from_str_radix(digits.as_str(), radix) {
        Ok(v) => Ok(v),
        Err(k) => {
            let m = int_error_text(k);
            Err(cat3("invalid mode for ", name, ": ").concat(m.as_str()))
        },
    }
}

/// `10^n`.
pub open spec fn pow10(n: nat) -> nat
    decreases n,
{
    if n == 0 {
        1
    } else {
        10 * pow10((n - 1) as nat)
    }
}

/// The value of a string of decimal digits.
pub open spec fn digits_value(d: Seq<char>) -> nat
    decreases d.len(),
{
    if d.len() == 0 {
        0
    } else {
        digits_value(d.drop_last()) * 10 + ((d.last() as u32) - 48) as nat
    }
}

/// A character of a number in a duration: a digit or `.`.
pub open spec fn is_num_char(c: char) -> bool {
    is_digit(c) || c == '.'
}

/// The number of leading characters of `s` that satisfy `p`.
pub open spec fn prefix_len(s: Seq<char>, p: spec_fn(char) -> bool) -> nat
    decreases s.len(),
{
    if s.len() > 0 && p(s[0]) {
        1 + prefix_len(s.drop_first(), p)
    } else {
        0
    }
}

pub proof fn lemma_prefix_len_unique(s: Seq<char>, p: spec_fn(char) -> bool, n: int)
    requires
        0 <= n <= s.len(),
        forall|i: int| 0 <= i < n ==> p(#[trigger] s[i]),
        n < s.len() ==> !p(s[n]),
    ensures
        prefix_len(s, p) == n,
    decreases s.len(),
{
    if n > 0 {
        assert(p(s[0]));
        assert forall|i: int| 0 <= i < n - 1 implies p(#[trigger] s.drop_first()[i]) by {
            assert(p(s[i + 1]));
        }
        lemma_prefix_len_unique(s.drop_first(), p, n - 1);
    }
}

/// Index of the first `.` of `t`, or its length.
pub open spec fn first_dot(t: Seq<char>) -> nat
    decreases t.len(),
{
    if t.len() == 0 || t[0] == '.' {
        0
    } else {
        1 + first_dot(t.drop_first())
    }
}

/// A number as `f64` parsing accepts it here: at most one `.` and at
/// least one digit.
pub open spec fn valid_number(t: Seq<char>) -> bool {
    &&& forall|i: int, j: int| 0 <= i < j < t.len() ==> !(t[i] == '.' && t[j] == '.')
    &&& exists|i: int| 0 <= i < t.len() && is_digit(#[trigger] t[i])
}

/// The fractional digits of a number that count: the first eighteen.
pub open spec fn frac_digits(t: Seq<char>) -> Seq<char> {
    let p = first_dot(t);
    let frac = if p < t.len() { t.skip(p as int + 1) } else { seq![] };
    frac.take(if frac.len() < 18 { frac.len() as int } else { 18 })
}

/// The value of a number, in units of 10^-18, fractional digits after the
/// eighteenth dropped.
pub open spec fn scaled_number(t: Seq<char>) -> nat {
    let f = frac_digits(t);
    digits_value(t.take(first_dot(t) as int)) * pow10(18) + digits_value(f) * pow10((18 - f.len()) as nat)
}

/// Microseconds per unit of a systemd time span.
pub open spec fn unit_mult(u: Seq<char>) -> Option<nat> {
    if u == ""@ || u == "s"@ || u == "sec"@ || u == "secs"@ || u == "second"@ || u == "seconds"@ {
        Some(1_000_000)
    } else if u == "us"@ || u == "usec"@ || u == "usecs"@ || u == "microsecond"@ || u == "microseconds"@ {
        Some(1)
    } else if u == "ms"@ || u == "msec"@ || u == "msecs"@ || u == "millisecond"@ || u == "milliseconds"@ {
        Some(1_000)
    } else if u == "m"@ || u == "min"@ || u == "mins"@ || u == "minute"@ || u == "minutes"@ {
        Some(60_000_000)
    } else if u == "h"@ || u == "hr"@ || u == "hrs"@ || u == "hour"@ || u == "hours"@ {
        Some(3_600_000_000)
    } else if u == "d"@ || u == "day"@ || u == "days"@ {
        Some(86_400_000_000)
    } else if u == "w"@ || u == "week"@ || u == "weeks"@ {
        Some(604_800_000_000)
    } else {
        None
    }
}

/// The message for a duration that does not start with a number.
pub open spec fn invalid_duration_msg(name: Seq<char>, value: Seq<char>) -> Seq<char> {
    "invalid duration for "@ + name + ": `"@ + value + "`"@
}

/// The message for a number with two dots or no digit.
pub open spec fn float_error_msg(name: Seq<char>) -> Seq<char> {
    "invalid duration for "@ + name + ": invalid float literal"@
}

/// The message for an unknown time unit.
pub open spec fn unit_error_msg(name: Seq<char>, unit: Seq<char>) -> Seq<char> {
    "unsupported duration unit for "@ + name + ": `"@ + unit + "`"@
}

/// The sum of the terms `<number><unit>` of `input`, in units of
/// 10^-24 s, or the message for the first term that is malformed.
pub open spec fn dur_terms(input: Seq<char>, name: Seq<char>, value: Seq<char>) -> Result<nat, Seq<char>>
    decreases input.len(),
{
    if input.len() == 0 {
        Ok(0)
    } else {
        let s = trim_start(input);
        let n = prefix_len(s, |c: char| is_num_char(c));
        if n == 0 {
            Err(invalid_duration_msg(name, value))
        } else if !valid_number(s.take(n as int)) {
            Err(float_error_msg(name))
        } else {
            let r = trim_start(s.skip(n as int));
            let u = prefix_len(r, |c: char| is_alpha(c));
            match unit_mult(r.take(u as int)) {
                None => Err(unit_error_msg(name, r.take(u as int))),
                Some(mult) => {
                    proof {
                        crate::text::lemma_leading_space_bound(input);
                        lemma_prefix_len_bound(s, |c: char| is_num_char(c));
                        crate::text::lemma_leading_space_bound(s.skip(n as int));
                        lemma_prefix_len_bound(r, |c: char| is_alpha(c));
                    }
                    match dur_terms(r.skip(u as int), name, value) {
                        Err(e) => Err(e),
                        Ok(t) => Ok(scaled_number(s.take(n as int)) * mult + t),
                    }
                },
            }
        }
    }
}

pub proof fn lemma_prefix_len_bound(s: Seq<char>, p: spec_fn(char) -> bool)
    ensures
        prefix_len(s, p) <= s.len(),
        forall|i: int| 0 <= i < prefix_len(s, p) ==> p(#[trigger] s[i]),
    decreases s.len(),
{
    if s.len() > 0 && p(s[0]) {
        lemma_prefix_len_bound(s.drop_first(), p);
        assert forall|i: int| 0 <= i < prefix_len(s, p) implies p(#[trigger] s[i]) by {
            if i > 0 {
                assert(s[i] == s.drop_first()[i - 1]);
            }
        }
    }
}

/// `2^64` microseconds in units of 10^-18 microseconds: the largest total
/// that still converts.
pub open spec fn duration_bound() -> nat {
    18446744073709551616000000000000000000
}

/// What `parse_duration_usec` gives: the microseconds of a systemd time
/// span such as `90`, `1min 30s` or `infinity`, rounded to the nearest
/// microsecond.
pub open spec fn parse_duration_spec(name: Seq<char>, value: Seq<char>) -> Result<u64, Seq<char>> {
    let input = trim(value);
    if input.len() == 0 {
        Err(name + " requires a non-empty duration"@)
    } else if lower_all(input) == "infinity"@ {
        Ok(u64::MAX)
    } else {
        match dur_terms(input, name, value) {
            Err(e) => Err(e),
            Ok(total) => if total > duration_bound() {
                Err("duration for "@ + name + " is out of range: `"@ + value + "`"@)
            } else {
                let rounded = (total + 500_000_000_000_000_000) / 1_000_000_000_000_000_000;
                if rounded > u64::MAX {
                    Ok(u64::MAX)
                } else {
                    Ok(rounded as u64)
                }
            },
        }
    }
}

pub proof fn lemma_pow10_18()
    ensures
        pow10(18) == 1_000_000_000_000_000_000,
{
    reveal_with_fuel(pow10, 19);
}

pub proof fn lemma_pow10_positive(n: nat)
    ensures
        pow10(n) >= 1,
    decreases n,
{
    if n > 0 {
        lemma_pow10_positive((n - 1) as nat);
    }
}

pub proof fn lemma_pow10_add(a: nat, b: nat)
    ensures
        pow10(a) * pow10(b) == pow10(a + b),
    decreases a,
{
    if a > 0 {
        lemma_pow10_add((a - 1) as nat, b);
        assert(pow10(a) * pow10(b) == 10 * (pow10((a - 1) as nat) * pow10(b))) by (nonlinear_arith)
            requires
                pow10(a) == 10 * pow10((a - 1) as nat),
        ;
        assert((a - 1) as nat + b == (a + b - 1) as nat);
        assert(pow10(a + b) == 10 * pow10((a + b - 1) as nat));
        assert(pow10((a - 1) as nat) * pow10(b) == pow10((a + b - 1) as nat));
        assert(pow10(a) * pow10(b) == pow10(a + b));
    } else {
        assert(pow10(0) == 1);
        assert(a + b == b);
        assert(1 * pow10(b) == pow10(b));
    }
}

/// A string of `n` digits is worth less than `10^n`.
pub proof fn lemma_digits_value_bound(d: Seq<char>)
    requires
        forall|i: int| 0 <= i < d.len() ==> is_digit(#[trigger] d[i]),
    ensures
        digits_value(d) < pow10(d.len()),
    decreases d.len(),
{
    if d.len() > 0 {
        assert forall|i: int| 0 <= i < d.drop_last().len() implies is_digit(#[trigger] d.drop_last()[i]) by {
            assert(d.drop_last()[i] == d[i]);
        }
        lemma_digits_value_bound(d.drop_last());
        assert(is_digit(d.last()));
        let c = ((d.last() as u32) - 48) as nat;
        assert(c <= 9);
        let a = digits_value(d.drop_last());
        let p = pow10(d.drop_last().len());
        assert(a * 10 + c < p * 10) by (nonlinear_arith)
            requires
                a < p,
                c <= 9,
        ;
    }
}

/// The index `r >= from` where the run of `from`'s characters satisfying
/// `is_num_char` ends.
fn scan_num(cs: &Vec<char>, from: usize) -> (r: usize)
    requires
        from <= cs.len(),
    ensures
        from <= r <= cs.len(),
        r - from == prefix_len(cs@.skip(from as int), |c: char| is_num_char(c)),
        forall|i: int| from <= i < r ==> is_num_char(#[trigger] cs@[i]),
{
    let mut i: usize = from;
    while i < cs.len() && (char_is_digit(cs[i]) || cs[i] == '.')
        invariant
            from <= i <= cs.len(),
            forall|j: int| from <= j < i ==> is_num_char(#[trigger] cs@[j]),
        decreases cs.len() - i,
    {
        i = i + 1;
    }
    proof {
        let t = cs@.skip(from as int);
        assert forall|j: int| 0 <= j < i - from implies (|c: char| is_num_char(c))(#[trigger] t[j]) by {
            assert(t[j] == cs@[from + j]);
        }
        if i < cs.len() {
            assert(t[i - from] == cs@[i as int]);
        }
        lemma_prefix_len_unique(t, |c: char| is_num_char(c), i - from);
    }
    i
}

/// The index `r >= from` where the run of ASCII letters at `from` ends.
fn scan_alpha(cs: &Vec<char>, from: usize) -> (r: usize)
    requires
        from <= cs.len(),
    ensures
        from <= r <= cs.len(),
        r - from == prefix_len(cs@.skip(from as int), |c: char| is_alpha(c)),
{
    let mut i: usize = from;
    while i < cs.len() && char_is_alpha(cs[i])
        invariant
            from <= i <= cs.len(),
            forall|j: int| from <= j < i ==> is_alpha(#[trigger] cs@[j]),
        decreases cs.len() - i,
    {
        i = i + 1;
    }
    proof {
        let t = cs@.skip(from as int);
        assert forall|j: int| 0 <= j < i - from implies (|c: char| is_alpha(c))(#[trigger] t[j]) by {
            assert(t[j] == cs@[from + j]);
        }
        if i < cs.len() {
            assert(t[i - from] == cs@[i as int]);
        }
        lemma_prefix_len_unique(t, |c: char| is_alpha(c), i - from);
    }
    i
}

/// Whether `cs[from..to]`, made of digits and dots, is a number.
fn number_is_valid(cs: &Vec<char>, from: usize, to: usize) -> (r: bool)
    requires
        from <= to <= cs.len(),
    ensures
        r == valid_number(cs@.subrange(from as int, to as int)),
{
    let ghost t = cs@.subrange(from as int, to as int);
    let mut dots: usize = 0;
    let mut digits = false;
    let mut i: usize = from;
    let mut dot_at: usize = from;
    while i < to
        invariant
            from <= i <= to <= cs.len(),
            t == cs@.subrange(from as int, to as int),
            dots <= 1,
            dots == 0 ==> forall|j: int| from <= j < i ==> cs@[j] != '.',
            dots == 1 ==> from <= dot_at < i && cs@[dot_at as int] == '.' && forall|j: int| from <= j < i && j != dot_at ==> cs@[j] != '.',
            digits == exists|j: int| from <= j < i && is_digit(#[trigger] cs@[j]),
        decreases to - i,
    {
        if cs[i] == '.' {
            if dots == 1 {
                proof {
                    assert(t[dot_at - from] == '.' && t[i - from] == '.');
                }
                return false;
            }
            dots = 1;
            dot_at = i;
        }
        if char_is_digit(cs[i]) {
            digits = true;
        }
        i = i + 1;
    }
    proof {
        if digits {
            let j = choose|j: int| from <= j < i && is_digit(#[trigger] cs@[j]);
            assert(t[j - from] == cs@[j]);
        } else {
            if exists|j: int| 0 <= j < t.len() && is_digit(#[trigger] t[j]) {
                let j = choose|j: int| 0 <= j < t.len() && is_digit(#[trigger] t[j]);
                assert(cs@[from + j] == t[j]);
            }
        }
        assert forall|a: int, b: int| 0 <= a < b < t.len() implies !(t[a] == '.' && t[b] == '.') by {
            assert(t[a] == cs@[from + a]);
            assert(t[b] == cs@[from + b]);
        }
    }
    digits
}

/// The index of the first `.` of `t`, given the index of the first one.
pub proof fn lemma_first_dot(t: Seq<char>, k: int)
    requires
        0 <= k <= t.len(),
        k < t.len() ==> t[k] == '.',
        forall|j: int| 0 <= j < k ==> t[j] != '.',
    ensures
        first_dot(t) == k,
    decreases t.len(),
{
    if k > 0 {
        assert forall|j: int| 0 <= j < k - 1 implies t.drop_first()[j] != '.' by {
            assert(t[j + 1] != '.');
        }
        lemma_first_dot(t.drop_first(), k - 1);
    }
}

/// `scaled_number(cs[from..to])` with whether it exceeds
/// `duration_bound()`; exact when it does not.
fn number_scaled(cs: &Vec<char>, from: usize, to: usize) -> (r: (u128, bool))
    requires
        from <= to <= cs.len(),
        valid_number(cs@.subrange(from as int, to as int)),
        forall|i: int| from <= i < to ==> is_num_char(#[trigger] cs@[i]),
    ensures
        r.1 ==> scaled_number(cs@.subrange(from as int, to as int)) > duration_bound(),
        !r.1 ==> r.0 == scaled_number(cs@.subrange(from as int, to as int)) && r.0 < duration_bound() + 1_000_000_000_000_000_000,
{
    let ghost t = cs@.subrange(from as int, to as int);
    let mut d: usize = from;
    while d < to && cs[d] != '.'
        invariant
            from <= d <= to <= cs.len(),
            forall|j: int| from <= j < d ==> cs@[j] != '.',
        decreases to - d,
    {
        d = d + 1;
    }
    proof {
        assert forall|j: int| 0 <= j < d - from implies t[j] != '.' by {
            assert(t[j] == cs@[from + j]);
        }
        if d < to {
            assert(t[d - from] == cs@[d as int]);
        }
        lemma_first_dot(t, d - from);
    }
    let mut ival: u128 = 0;
    let mut ibig = false;
    let mut i: usize = from;
    while i < d
        invariant
            from <= i <= d <= to <= cs.len(),
            forall|j: int| from <= j < d ==> is_digit(#[trigger] cs@[j]),
            !ibig ==> ival == digits_value(cs@.subrange(from as int, i as int)) && ival <= 18446744073709551616,
            ibig ==> digits_value(cs@.subrange(from as int, i as int)) > 18446744073709551616,
        decreases d - i,
    {
        proof {
            assert forall|j: int| from <= j < d implies is_digit(#[trigger] cs@[j]) by {
                assert(is_num_char(cs@[j]));
            }
        }
        assert(cs@.subrange(from as int, i + 1).drop_last() =~= cs@.subrange(from as int, i as int));
        assert(cs@.subrange(from as int, i + 1).last() == cs@[i as int]);
        if !ibig {
            let c = cs[i];
            let digit: u128 = ((c as u32) - 48) as u128;
            ival = ival * 10 + digit;
            if ival > 18446744073709551616 {
                ibig = true;
            }
        }
        i = i + 1;
    }
    proof {
        assert(t.take(first_dot(t) as int) =~= cs@.subrange(from as int, d as int));
    }
    if ibig {
        proof {
            let iv = digits_value(t.take(first_dot(t) as int));
            let f = frac_digits(t);
            lemma_pow10_positive((18 - f.len()) as nat);
            lemma_pow10_18();
            assert(iv * pow10(18) > duration_bound()) by (nonlinear_arith)
                requires
                    iv > 18446744073709551616,
                    pow10(18) == 1_000_000_000_000_000_000,
            ;
        }
        return (0, true);
    }
    let fstart: usize = if d < to { d + 1 } else { to };
    let flen: usize = if to - fstart < 18 { to - fstart } else { 18 };
    let mut fval: u128 = 0;
    let mut k: usize = fstart;
    proof {
        let f = frac_digits(t);
        if d < to {
            assert(f =~= cs@.subrange(fstart as int, (fstart + flen) as int));
        } else {
            assert(f =~= cs@.subrange(fstart as int, (fstart + flen) as int));
        }
        assert forall|j: int| fstart <= j < to implies is_digit(#[trigger] cs@[j]) by {
            assert(is_num_char(cs@[j]));
            assert(t[j - from] == cs@[j]);
            if cs@[j] == '.' {
                assert(t[d - from] == '.');
            }
        }
    }
    proof {
        lemma_pow10_positive(18);
    }
    while k < fstart + flen
        invariant
            fstart <= k <= fstart + flen <= to <= cs.len(),
            flen <= 18,
            forall|j: int| fstart <= j < to ==> is_digit(#[trigger] cs@[j]),
            fval == digits_value(cs@.subrange(fstart as int, k as int)),
            fval < pow10((k - fstart) as nat),
            pow10((k - fstart) as nat) <= pow10(18),
        decreases fstart + flen - k,
    {
        assert(cs@.subrange(fstart as int, k + 1).drop_last() =~= cs@.subrange(fstart as int, k as int));
        assert(cs@.subrange(fstart as int, k + 1).last() == cs@[k as int]);
        proof {
            assert forall|j: int| 0 <= j < cs@.subrange(fstart as int, k + 1).len() implies is_digit(#[trigger] cs@.subrange(fstart as int, k + 1)[j]) by {
                assert(cs@.subrange(fstart as int, k + 1)[j] == cs@[fstart + j]);
            }
            lemma_digits_value_bound(cs@.subrange(fstart as int, k + 1));
            lemma_pow10_add((k + 1 - fstart) as nat, (18 - (k + 1 - fstart)) as nat);
            lemma_pow10_positive((18 - (k + 1 - fstart)) as nat);
            lemma_pow10_18();
            assert(pow10((k + 1 - fstart) as nat) <= pow10(18)) by (nonlinear_arith)
                requires
                    pow10((k + 1 - fstart) as nat) * pow10((18 - (k + 1 - fstart)) as nat) == pow10(18),
                    pow10((18 - (k + 1 - fstart)) as nat) >= 1,
            ;
        }
        let c = cs[k];
        let digit: u128 = ((c as u32) - 48) as u128;
        fval = fval * 10 + digit;
        k = k + 1;
    }
    let mut scale: u128 = 1;
    let mut e: usize = 0;
    proof {
        lemma_pow10_positive(18);
    }
    while e < 18 - flen
        invariant
            e <= 18 - flen,
            flen <= 18,
            scale == pow10(e as nat),
            pow10(e as nat) <= pow10(18),
        decreases 18 - flen - e,
    {
        proof {
            lemma_pow10_add((e + 1) as nat, (18 - (e + 1)) as nat);
            lemma_pow10_positive((18 - (e + 1)) as nat);
            lemma_pow10_18();
            assert(pow10((e + 1) as nat) <= pow10(18)) by (nonlinear_arith)
                requires
                    pow10((e + 1) as nat) * pow10((18 - (e + 1)) as nat) == pow10(18),
                    pow10((18 - (e + 1)) as nat) >= 1,
            ;
        }
        scale = scale * 10;
        e = e + 1;
    }
    proof {
        lemma_pow10_18();
        lemma_pow10_add(flen as nat, (18 - flen) as nat);
        assert(fval * scale < 1_000_000_000_000_000_000) by (nonlinear_arith)
            requires
                fval < pow10(flen as nat),
                scale == pow10((18 - flen) as nat),
                pow10(flen as nat) * pow10((18 - flen) as nat) == 1_000_000_000_000_000_000,
        ;
        assert(ival * 1_000_000_000_000_000_000 <= duration_bound()) by (nonlinear_arith)
            requires
                ival <= 18446744073709551616,
        ;
    }
    let n = ival * 1_000_000_000_000_000_000 + fval * scale;
    (n, false)
}

/// `unit_mult(cs[from..to])`.
fn unit_multiplier(cs: &Vec<char>, from: usize, to: usize) -> (r: Option<u64>)
    requires
        from <= to <= cs.len(),
    ensures
        match unit_mult(cs@.subrange(from as int, to as int)) {
            Some(m) => r == Some(m as u64),
            None => r is None,
        },
{
    if slice_eq_str(cs, from, to, "") || slice_eq_str(cs, from, to, "s") || slice_eq_str(cs, from, to, "sec") || slice_eq_str(cs, from, to, "secs") || slice_eq_str(cs, from, to, "second") || slice_eq_str(cs, from, to, "seconds") {
        Some(1_000_000)
    } else if slice_eq_str(cs, from, to, "us") || slice_eq_str(cs, from, to, "usec") || slice_eq_str(cs, from, to, "usecs") || slice_eq_str(cs, from, to, "microsecond") || slice_eq_str(cs, from, to, "microseconds") {
        Some(1)
    } else if slice_eq_str(cs, from, to, "ms") || slice_eq_str(cs, from, to, "msec") || slice_eq_str(cs, from, to, "msecs") || slice_eq_str(cs, from, to, "millisecond") || slice_eq_str(cs, from, to, "milliseconds") {
        Some(1_000)
    } else if slice_eq_str(cs, from, to, "m") || slice_eq_str(cs, from, to, "min") || slice_eq_str(cs, from, to, "mins") || slice_eq_str(cs, from, to, "minute") || slice_eq_str(cs, from, to, "minutes") {
        Some(60_000_000)
    } else if slice_eq_str(cs, from, to, "h") || slice_eq_str(cs, from, to, "hr") || slice_eq_str(cs, from, to, "hrs") || slice_eq_str(cs, from, to, "hour") || slice_eq_str(cs, from, to, "hours") {
        Some(3_600_000_000)
    } else if slice_eq_str(cs, from, to, "d") || slice_eq_str(cs, from, to, "day") || slice_eq_str(cs, from, to, "days") {
        Some(86_400_000_000)
    } else if slice_eq_str(cs, from, to, "w") || slice_eq_str(cs, from, to, "week") || slice_eq_str(cs, from, to, "weeks") {
        Some(604_800_000_000)
    } else {
        None
    }
}

/// Adds `acc` to a successful total.
pub open spec fn add_total(acc: nat, r: Result<nat, Seq<char>>) -> Result<nat, Seq<char>> {
    match r {
        Ok(t) => Ok(acc + t),
        Err(e) => Err(e),
    }
}

/// Parses a systemd time span into microseconds: whitespace-separated
/// terms of a number and a unit (seconds when none), or `infinity`.
/// Fractional digits after the eighteenth do not count; the total is
/// rounded to the nearest microsecond, half up.
pub fn parse_duration_usec(name: &str, value: &str) -> (r: Result<u64, String>)
    ensures
        match r {
            Ok(v) => parse_duration_spec(name@, value@) == Ok::<u64, Seq<char>>(v),
            Err(e) => parse_duration_spec(name@, value@) == Err::<u64, Seq<char>>(e@),
        },
{
    let cs = chars_of(value);
    let start = skip_space(&cs, 0);
    let end = trim_end_index(&cs, start);
    proof {
        assert(cs@.skip(0) =~= cs@);
        assert(trim(value@) =~= cs@.subrange(start as int, end as int));
    }
    if start == end {
        return Err(cat(name, " requires a non-empty duration"));
    }
    let inp = crate::text::sub_chars(&cs, start, end);
    let low = crate::text::lower_chars(&inp);
    if slice_eq_str(&low, 0, low.len(), "infinity") {
        assert(low@.subrange(0, low@.len() as int) =~= low@);
        return Ok(u64::MAX);
    }
    assert(low@.subrange(0, low@.len() as int) =~= low@);
    let ghost input = inp@;
    let mut pos: usize = 0;
    let mut total: u128 = 0;
    let mut big = false;
    let ghost mut acc: nat = 0;
    assert(inp@.skip(0) =~= inp@);
    while pos < inp.len()
        invariant
            input == inp@,
            input == trim(value@),
            input.len() > 0,
            lower_all(input) != "infinity"@,
            pos <= inp@.len(),
            dur_terms(input, name@, value@) == add_total(acc, dur_terms(input.skip(pos as int), name@, value@)),
            !big ==> total == acc && acc <= duration_bound(),
            big ==> acc > duration_bound(),
        decreases inp.len() - pos,
    {
        let p1 = skip_space(&inp, pos);
        let ghost s1 = trim_start(input.skip(pos as int));
        assert(s1 =~= input.skip(p1 as int));
        let q = scan_num(&inp, p1);
        if q == p1 {
            let a = cat3("invalid duration for ", name, ": `");
            return Err(cat3(a.as_str(), value, "`"));
        }
        let ghost n: int = q - p1;
        assert(s1.take(n) =~= input.subrange(p1 as int, q as int));
        assert(s1.skip(n) =~= input.skip(q as int));
        if !number_is_valid(&inp, p1, q) {
            return Err(cat3("invalid duration for ", name, ": invalid float literal"));
        }
        let (nv, nbig) = number_scaled(&inp, p1, q);
        let p2 = skip_space(&inp, q);
        let ghost r1 = trim_start(input.skip(q as int));
        assert(r1 =~= input.skip(p2 as int));
        let ux = scan_alpha(&inp, p2);
        let ghost u: int = ux - p2;
        assert(r1.take(u) =~= input.subrange(p2 as int, ux as int));
        assert(r1.skip(u) =~= input.skip(ux as int));
        let mult = match unit_multiplier(&inp, p2, ux) {
            Some(m) => m,
            None => {
                let unit = crate::text::string_of(&inp, p2, ux);
                let a = cat3("unsupported duration unit for ", name, ": `");
                return Err(cat3(a.as_str(), unit.as_str(), "`"));
            },
        };
        let ghost num = scaled_number(input.subrange(p1 as int, q as int));
        let ghost term: nat = num * (mult as nat);
        assert(mult >= 1);
        assert(term >= num) by (nonlinear_arith)
            requires
                term == num * (mult as nat),
                mult >= 1,
        ;
        if !big {
            if nbig {
                big = true;
            } else {
                let m: u128 = mult as u128;
                let limit: u128 = 18446744073709551616000000000000000000 / m;
                if nv > limit {
                    proof {
                        lemma_over_limit(nv as nat, m as nat);
                    }
                    big = true;
                } else {
                    proof {
                        lemma_under_limit(nv as nat, m as nat);
                    }
                    let t = nv * m;
                    if total + t > 18446744073709551616000000000000000000 {
                        big = true;
                    } else {
                        total = total + t;
                    }
                }
            }
        }
        proof {
            acc = acc + term;
        }
        pos = ux;
    }
    assert(input.skip(pos as int).len() == 0);
    if big {
        let a = cat3("duration for ", name, " is out of range: `");
        return Err(cat3(a.as_str(), value, "`"));
    }
    let rounded: u128 = (total + 500_000_000_000_000_000) / 1_000_000_000_000_000_000;
    if rounded > 0xffff_ffff_ffff_ffff {
        Ok(u64::MAX)
    } else {
        Ok(rounded as u64)
    }
}

pub proof fn lemma_over_limit(n: nat, m: nat)
    requires
        m >= 1,
        n > duration_bound() / m,
    ensures
        n * m > duration_bound(),
{
    let b = duration_bound();
    vstd::arithmetic::div_mod::lemma_fundamental_div_mod(b as int, m as int);
    assert(n * m > b) by (nonlinear_arith)
        requires
            m >= 1,
            n >= b / m + 1,
            b == m * (b / m) + b % m,
            b % m < m,
    ;
}

pub proof fn lemma_under_limit(n: nat, m: nat)
    requires
        m >= 1,
        n <= duration_bound() / m,
    ensures
        n * m <= duration_bound(),
{
    let b = duration_bound();
    vstd::arithmetic::div_mod::lemma_fundamental_div_mod(b as int, m as int);
    assert(n * m <= b) by (nonlinear_arith)
        requires
            m >= 1,
            n <= b / m,
            b == m * (b / m) + b % m,
            b % m >= 0,
    ;
}

} // verus!

verus! {

/// A nonempty string of decimal digits.
pub open spec fn digit_string(n: Seq<char>) -> bool {
    n.len() > 0 && forall|i: int| 0 <= i < n.len() ==> is_digit(#[trigger] n[i])
}

/// A nonempty string of ASCII letters.
pub open spec fn letter_string(u: Seq<char>) -> bool {
    u.len() > 0 && forall|i: int| 0 <= i < u.len() ==> is_alpha(#[trigger] u[i])
}

/// Law: a duration written as one whole number and one unit is that
/// number times the microseconds of the unit.
pub proof fn lemma_single_term(name: Seq<char>, n: Seq<char>, u: Seq<char>, mult: nat)
    requires
        digit_string(n),
        letter_string(u),
        unit_mult(u) == Some(mult),
        digits_value(n) * mult <= u64::MAX,
    ensures
        parse_duration_spec(name, n + u) == Ok::<u64, Seq<char>>((digits_value(n) * mult) as u64),
{
    let s = n + u;
    assert(s + Seq::<char>::empty() =~= s);
    lemma_term_cons(name, s, n, u, Seq::<char>::empty(), mult);
    assert(dur_terms(Seq::<char>::empty(), name, s) == Ok::<nat, Seq<char>>(0));
    assert(s[0] == n[0]);
    assert(is_digit(s[0]));
    assert(leading_space(s) == 0);
    assert(s.skip(0) =~= s);
    assert(s.last() == u.last());
    assert(is_alpha(u[u.len() - 1]));
    assert(trailing_space(s) == 0);
    assert(s.take(s.len() as int) =~= s);
    assert(trim(s) == s);
    reveal_strlit("infinity");
    assert(lower_all(s)[0] == s[0]);
    assert(lower_all(s) != "infinity"@) by {
        assert("infinity"@[0] == 'i');
    }
    let x = digits_value(n) * mult;
    let total = digits_value(n) * mult * 1_000_000_000_000_000_000 + 0;
    assert(dur_terms(s, name, s) == Ok::<nat, Seq<char>>(total));
    assert(total == x * 1_000_000_000_000_000_000);
    assert(total <= duration_bound()) by (nonlinear_arith)
        requires
            total == x * 1_000_000_000_000_000_000,
            x <= 18446744073709551615,
    ;
    vstd::arithmetic::div_mod::lemma_fundamental_div_mod_converse(
        (total + 500_000_000_000_000_000) as int,
        1_000_000_000_000_000_000,
        x as int,
        500_000_000_000_000_000,
    );
}

/// Law: every spelling of a unit stands for the microseconds of that
/// unit: a microsecond is 1, a millisecond 1000, a second 1000000, a
/// minute 60 seconds, an hour 60 minutes, a day 24 hours, a week 7 days;
/// a number without a unit counts seconds.
pub proof fn lemma_unit_spellings()
    ensures
        unit_mult(""@) == Some(1_000_000nat),
        unit_mult("s"@) == Some(1_000_000nat),
        unit_mult("sec"@) == Some(1_000_000nat),
        unit_mult("secs"@) == Some(1_000_000nat),
        unit_mult("second"@) == Some(1_000_000nat),
        unit_mult("seconds"@) == Some(1_000_000nat),
        unit_mult("us"@) == Some(1nat),
        unit_mult("usec"@) == Some(1nat),
        unit_mult("usecs"@) == Some(1nat),
        unit_mult("microsecond"@) == Some(1nat),
        unit_mult("microseconds"@) == Some(1nat),
        unit_mult("ms"@) == Some(1_000nat),
        unit_mult("msec"@) == Some(1_000nat),
        unit_mult("msecs"@) == Some(1_000nat),
        unit_mult("millisecond"@) == Some(1_000nat),
        unit_mult("milliseconds"@) == Some(1_000nat),
        unit_mult("m"@) == Some(60 * 1_000_000nat),
        unit_mult("min"@) == Some(60 * 1_000_000nat),
        unit_mult("mins"@) == Some(60 * 1_000_000nat),
        unit_mult("minute"@) == Some(60 * 1_000_000nat),
        unit_mult("minutes"@) == Some(60 * 1_000_000nat),
        unit_mult("h"@) == Some(60 * 60 * 1_000_000nat),
        unit_mult("hr"@) == Some(60 * 60 * 1_000_000nat),
        unit_mult("hrs"@) == Some(60 * 60 * 1_000_000nat),
        unit_mult("hour"@) == Some(60 * 60 * 1_000_000nat),
        unit_mult("hours"@) == Some(60 * 60 * 1_000_000nat),
        unit_mult("d"@) == Some(24 * 60 * 60 * 1_000_000nat),
        unit_mult("day"@) == Some(24 * 60 * 60 * 1_000_000nat),
        unit_mult("days"@) == Some(24 * 60 * 60 * 1_000_000nat),
        unit_mult("w"@) == Some(7 * 24 * 60 * 60 * 1_000_000nat),
        unit_mult("week"@) == Some(7 * 24 * 60 * 60 * 1_000_000nat),
        unit_mult("weeks"@) == Some(7 * 24 * 60 * 60 * 1_000_000nat),
{
    reveal_strlit("");
    assert(""@.len() == 0);
    reveal_strlit("s");
    assert("s"@.len() == 1);
    reveal_strlit("sec");
    assert("sec"@.len() == 3);
    reveal_strlit("secs");
    assert("secs"@.len() == 4);
    reveal_strlit("second");
    assert("second"@.len() == 6);
    reveal_strlit("seconds");
    assert("seconds"@.len() == 7);
    reveal_strlit("us");
    assert("us"@.len() == 2);
    reveal_strlit("usec");
    assert("usec"@.len() == 4);
    reveal_strlit("usecs");
    assert("usecs"@.len() == 5);
    reveal_strlit("microsecond");
    assert("microsecond"@.len() == 11);
    reveal_strlit("microseconds");
    assert("microseconds"@.len() == 12);
    reveal_strlit("ms");
    assert("ms"@.len() == 2);
    reveal_strlit("msec");
    assert("msec"@.len() == 4);
    reveal_strlit("msecs");
    assert("msecs"@.len() == 5);
    reveal_strlit("millisecond");
    assert("millisecond"@.len() == 11);
    reveal_strlit("milliseconds");
    assert("milliseconds"@.len() == 12);
    reveal_strlit("m");
    assert("m"@.len() == 1);
    reveal_strlit("min");
    assert("min"@.len() == 3);
    reveal_strlit("mins");
    assert("mins"@.len() == 4);
    reveal_strlit("minute");
    assert("minute"@.len() == 6);
    reveal_strlit("minutes");
    assert("minutes"@.len() == 7);
    reveal_strlit("h");
    assert("h"@.len() == 1);
    reveal_strlit("hr");
    assert("hr"@.len() == 2);
    reveal_strlit("hrs");
    assert("hrs"@.len() == 3);
    reveal_strlit("hour");
    assert("hour"@.len() == 4);
    reveal_strlit("hours");
    assert("hours"@.len() == 5);
    reveal_strlit("d");
    assert("d"@.len() == 1);
    reveal_strlit("day");
    assert("day"@.len() == 3);
    reveal_strlit("days");
    assert("days"@.len() == 4);
    reveal_strlit("w");
    assert("w"@.len() == 1);
    reveal_strlit("week");
    assert("week"@.len() == 4);
    reveal_strlit("weeks");
    assert("weeks"@.len() == 5);
    assert("usec"@[0] != "secs"@[0]);
    assert("ms"@[0] != "us"@[0]);
    assert("msec"@[0] != "secs"@[0]);
    assert("msec"@[0] != "usec"@[0]);
    assert("msecs"@[0] != "usecs"@[0]);
    assert("millisecond"@[2] != "microsecond"@[2]);
    assert("milliseconds"@[2] != "microseconds"@[2]);
    assert("m"@[0] != "s"@[0]);
    assert("min"@[0] != "sec"@[0]);
    assert("mins"@[0] != "secs"@[0]);
    assert("mins"@[0] != "usec"@[0]);
    assert("mins"@[1] != "msec"@[1]);
    assert("minute"@[0] != "second"@[0]);
    assert("minutes"@[0] != "seconds"@[0]);
    assert("h"@[0] != "s"@[0]);
    assert("h"@[0] != "m"@[0]);
    assert("hr"@[0] != "us"@[0]);
    assert("hr"@[0] != "ms"@[0]);
    assert("hrs"@[0] != "sec"@[0]);
    assert("hrs"@[0] != "min"@[0]);
    assert("hour"@[0] != "secs"@[0]);
    assert("hour"@[0] != "usec"@[0]);
    assert("hour"@[0] != "msec"@[0]);
    assert("hour"@[0] != "mins"@[0]);
    assert("hours"@[0] != "usecs"@[0]);
    assert("hours"@[0] != "msecs"@[0]);
    assert("d"@[0] != "s"@[0]);
    assert("d"@[0] != "m"@[0]);
    assert("d"@[0] != "h"@[0]);
    assert("day"@[0] != "sec"@[0]);
    assert("day"@[0] != "min"@[0]);
    assert("day"@[0] != "hrs"@[0]);
    assert("days"@[0] != "secs"@[0]);
    assert("days"@[0] != "usec"@[0]);
    assert("days"@[0] != "msec"@[0]);
    assert("days"@[0] != "mins"@[0]);
    assert("days"@[0] != "hour"@[0]);
    assert("w"@[0] != "s"@[0]);
    assert("w"@[0] != "m"@[0]);
    assert("w"@[0] != "h"@[0]);
    assert("w"@[0] != "d"@[0]);
    assert("week"@[0] != "secs"@[0]);
    assert("week"@[0] != "usec"@[0]);
    assert("week"@[0] != "msec"@[0]);
    assert("week"@[0] != "mins"@[0]);
    assert("week"@[0] != "hour"@[0]);
    assert("week"@[0] != "days"@[0]);
    assert("weeks"@[0] != "usecs"@[0]);
    assert("weeks"@[0] != "msecs"@[0]);
    assert("weeks"@[0] != "hours"@[0]);
}

/// Law: `m` and `min` both mean minutes: a whole number of them is that
/// number times sixty million microseconds.
pub proof fn lemma_minutes(name: Seq<char>, n: Seq<char>)
    requires
        digit_string(n),
        digits_value(n) * 60_000_000 <= u64::MAX,
    ensures
        parse_duration_spec(name, n + "m"@) == Ok::<u64, Seq<char>>((digits_value(n) * 60_000_000) as u64),
        parse_duration_spec(name, n + "min"@) == Ok::<u64, Seq<char>>((digits_value(n) * 60_000_000) as u64),
{
    lemma_unit_spellings();
    reveal_strlit("m");
    reveal_strlit("min");
    assert(letter_string("m"@));
    assert(letter_string("min"@));
    lemma_single_term(name, n, "m"@, 60_000_000);
    lemma_single_term(name, n, "min"@, 60_000_000);
}

/// A leading term `<digits><unit>` adds its microseconds, in units of
/// 10^-24 s, to what the rest of the input is worth.
proof fn lemma_term_cons(name: Seq<char>, value: Seq<char>, n: Seq<char>, u: Seq<char>, rest: Seq<char>, mult: nat)
    requires
        digit_string(n),
        letter_string(u),
        unit_mult(u) == Some(mult),
        rest.len() > 0 ==> !is_alpha(rest[0]),
    ensures
        dur_terms(n + u + rest, name, value) == match dur_terms(rest, name, value) {
            Ok(t) => Ok::<nat, Seq<char>>(digits_value(n) * mult * 1_000_000_000_000_000_000 + t),
            Err(e) => Err(e),
        },
{
    let s = n + u + rest;
    let k = n.len() as int;
    let ur = u + rest;
    assert(s[0] == n[0]);
    assert(is_digit(s[0]));
    assert(leading_space(s) == 0);
    assert(s.skip(0) =~= s);
    assert(trim_start(s) == s);
    assert forall|i: int| 0 <= i < k implies is_num_char(#[trigger] s[i]) by {
        assert(s[i] == n[i]);
    }
    assert(s[k] == u[0]);
    assert(is_alpha(u[0]));
    assert(!is_num_char(s[k]));
    lemma_prefix_len_unique(s, |c: char| is_num_char(c), k);
    assert(s.take(k) =~= n);
    assert(valid_number(n)) by {
        assert(is_digit(n[0]));
    }
    lemma_first_dot(n, k);
    assert(n.take(k) =~= n);
    assert(frac_digits(n) =~= Seq::<char>::empty());
    lemma_pow10_18();
    assert(digits_value(Seq::<char>::empty()) == 0);
    assert(scaled_number(n) == digits_value(n) * 1_000_000_000_000_000_000);
    assert(s.skip(k) =~= ur);
    assert(ur[0] == u[0]);
    assert(leading_space(ur) == 0);
    assert(ur.skip(0) =~= ur);
    assert(trim_start(s.skip(k)) == ur);
    let ul = u.len() as int;
    assert forall|i: int| 0 <= i < ul implies is_alpha(#[trigger] ur[i]) by {
        assert(ur[i] == u[i]);
    }
    if ul < ur.len() {
        assert(ur[ul] == rest[0]);
    }
    lemma_prefix_len_unique(ur, |c: char| is_alpha(c), ul);
    assert(ur.take(ul) =~= u);
    assert(ur.skip(ul) =~= rest);
    assert(digits_value(n) * mult * 1_000_000_000_000_000_000 == scaled_number(n) * mult) by (nonlinear_arith)
        requires
            scaled_number(n) == digits_value(n) * 1_000_000_000_000_000_000,
    ;
}

/// Law: the terms of a time span add up: `<a><unit> <b><unit>`, such as
/// `1min 30s`, is the sum of its two terms.
pub proof fn lemma_two_terms(
    name: Seq<char>,
    n1: Seq<char>,
    u1: Seq<char>,
    m1: nat,
    n2: Seq<char>,
    u2: Seq<char>,
    m2: nat,
)
    requires
        digit_string(n1),
        letter_string(u1),
        unit_mult(u1) == Some(m1),
        digit_string(n2),
        letter_string(u2),
        unit_mult(u2) == Some(m2),
        digits_value(n1) * m1 + digits_value(n2) * m2 <= u64::MAX,
    ensures
        parse_duration_spec(name, n1 + u1 + " "@ + n2 + u2) == Ok::<u64, Seq<char>>(
            (digits_value(n1) * m1 + digits_value(n2) * m2) as u64,
        ),
{
    reveal_strlit(" ");
    assert(" "@.len() == 1);
    let second = n2 + u2;
    let rest = " "@ + second;
    let s = n1 + u1 + rest;
    assert(s =~= n1 + u1 + " "@ + n2 + u2);
    assert(rest[0] == ' ');
    assert(!is_alpha(rest[0]));
    lemma_term_cons(name, s, n1, u1, rest, m1);
    // the second term, after the space
    assert(second[0] == n2[0]);
    assert(is_digit(second[0]));
    assert(leading_space(second) == 0);
    assert(rest.drop_first() =~= second);
    assert(leading_space(rest) == 1);
    assert(rest.skip(1) =~= second);
    assert(second.skip(0) =~= second);
    assert(trim_start(rest) == trim_start(second));
    assert(second + Seq::<char>::empty() =~= second);
    lemma_term_cons(name, s, n2, u2, Seq::<char>::empty(), m2);
    assert(dur_terms(Seq::<char>::empty(), name, s) == Ok::<nat, Seq<char>>(0));
    assert(dur_terms(rest, name, s) == dur_terms(second, name, s));
    // the whole value
    assert(s[0] == n1[0]);
    assert(leading_space(s) == 0);
    assert(s.skip(0) =~= s);
    assert(s.last() == u2.last());
    assert(is_alpha(u2[u2.len() - 1]));
    assert(trailing_space(s) == 0);
    assert(s.take(s.len() as int) =~= s);
    assert(trim(s) == s);
    reveal_strlit("infinity");
    assert(lower_all(s)[0] == s[0]);
    assert(lower_all(s) != "infinity"@) by {
        assert("infinity"@[0] == 'i');
    }
    let x = digits_value(n1) * m1 + digits_value(n2) * m2;
    let total = digits_value(n1) * m1 * 1_000_000_000_000_000_000 + (digits_value(n2) * m2 * 1_000_000_000_000_000_000 + 0);
    assert(dur_terms(s, name, s) == Ok::<nat, Seq<char>>(total));
    assert(total == x * 1_000_000_000_000_000_000) by (nonlinear_arith)
        requires
            total == digits_value(n1) * m1 * 1_000_000_000_000_000_000 + (digits_value(n2) * m2 * 1_000_000_000_000_000_000 + 0),
            x == digits_value(n1) * m1 + digits_value(n2) * m2,
    ;
    assert(total <= duration_bound()) by (nonlinear_arith)
        requires
            total == x * 1_000_000_000_000_000_000,
            x <= 18446744073709551615,
    ;
    vstd::arithmetic::div_mod::lemma_fundamental_div_mod_converse(
        (total + 500_000_000_000_000_000) as int,
        1_000_000_000_000_000_000,
        x as int,
        500_000_000_000_000_000,
    );
}

} // verus!
