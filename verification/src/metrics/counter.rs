//! From a counter's decimal text to nanoseconds.
//!
//! A payload states a CPU counter in seconds, as decimal text:
//! an optional sign, digits with an optional point (`12`, `12.`, `12.5`,
//! `.5`), and an optional exponent (`e9`, `E-3`, `e+09`). The histories
//! count in nanoseconds. The value is scaled by 10^9 and what is left
//! behind the point is cut off; no floating point comes into it.
use vstd::prelude::*;
use vstd::string::StringSliceAdditionalSpecFns;

verus! {

/// The character `+`.
pub const PLUS: u8 = 43;

/// The character `-`.
pub const MINUS: u8 = 45;

/// The character `.`.
pub const POINT: u8 = 46;

/// The character `0`.
pub const ZERO: u8 = 48;

/// The character `9`.
pub const NINE: u8 = 57;

/// The character `E`.
pub const UPPER_E: u8 = 69;

/// The character `e`.
pub const LOWER_E: u8 = 101;

/// Above this, 2^70, an exponent is only told to be large.
pub const LARGE: u128 = 0x40_0000_0000_0000_0000;

/// No count has more digits than this, 2^65, before its point.
pub const FAR: i128 = 0x2_0000_0000_0000_0000;

/// `b` is one of the characters `0` to `9`.
pub open spec fn is_digit(b: u8) -> bool {
    ZERO <= b && b <= NINE
}

/// The end of the run of digits that starts at `from`.
pub open spec fn digits_end(s: Seq<u8>, from: int) -> int
    decreases s.len() - from,
{
    if 0 <= from < s.len() && is_digit(s[from]) {
        digits_end(s, from + 1)
    } else {
        from
    }
}

/// The number that a run of digits writes.
pub open spec fn number_of(digits: Seq<u8>) -> nat
    decreases digits.len(),
{
    if digits.len() == 0 {
        0
    } else {
        number_of(digits.drop_last()) * 10 + (digits.last() - ZERO) as nat
    }
}

/// The power of ten.
pub open spec fn pow10(n: nat) -> nat
    decreases n,
{
    if n == 0 {
        1
    } else {
        10 * pow10((n - 1) as nat)
    }
}

/// A decimal number as its text states it: its sign, all its digits, and
/// the power of ten that its point and its exponent put on them.
pub struct Decimal {
    pub negative: bool,
    pub digits: Seq<u8>,
    pub shift: int,
}

/// The digits times ten to the power of `shift`, cut off at the point.
pub open spec fn scaled(digits: Seq<u8>, shift: int) -> nat {
    if shift >= 0 {
        number_of(digits) * pow10(shift as nat)
    } else {
        number_of(digits) / pow10((-shift) as nat)
    }
}

/// The exponent that the text states from the position `at` on: none is
/// an exponent of 0. Nothing where what stands there is no exponent.
pub open spec fn exponent_at(s: Seq<u8>, at: int) -> Option<int> {
    if at == s.len() {
        Some(0)
    } else if s[at] == LOWER_E || s[at] == UPPER_E {
        let signed = at + 1 < s.len() && (s[at + 1] == PLUS || s[at + 1] == MINUS);
        let q0 = if signed { at + 2 } else { at + 1 };
        let q1 = digits_end(s, q0);
        if q1 == q0 || q1 != s.len() {
            None
        } else if signed && s[at + 1] == MINUS {
            Some(-(number_of(s.subrange(q0, q1)) as int))
        } else {
            Some(number_of(s.subrange(q0, q1)) as int)
        }
    } else {
        None
    }
}

/// The number that the text states, if it states one.
pub open spec fn decimal_of(s: Seq<u8>) -> Option<Decimal> {
    let signed = s.len() > 0 && (s[0] == PLUS || s[0] == MINUS);
    let w0 = if signed { 1int } else { 0int };
    let w1 = digits_end(s, w0);
    let dotted = w1 < s.len() && s[w1] == POINT;
    let f1 = if dotted { digits_end(s, w1 + 1) } else { w1 };
    let whole = s.subrange(w0, w1);
    let fraction = if dotted { s.subrange(w1 + 1, f1) } else { Seq::<u8>::empty() };
    if whole.len() == 0 && fraction.len() == 0 {
        None
    } else {
        match exponent_at(s, f1) {
            None => None,
            Some(exponent) => Some(
                Decimal {
                    negative: signed && s[0] == MINUS,
                    digits: whole + fraction,
                    shift: exponent - fraction.len(),
                },
            ),
        }
    }
}

/// A count of nanoseconds that fits.
pub open spec fn fits(n: nat, negative: bool) -> Option<u64> {
    if n > u64::MAX || (negative && n > 0) {
        None
    } else {
        Some(n as u64)
    }
}

/// The nanoseconds that a text of seconds states: the value times 10^9,
/// cut off at the point. Nothing for a text that is no decimal number,
/// for a negative value and for one that is too large.
pub open spec fn nanoseconds_of(s: Seq<u8>) -> Option<u64> {
    match decimal_of(s) {
        None => None,
        Some(decimal) => fits(scaled(decimal.digits, decimal.shift + 9), decimal.negative),
    }
}

/// Every byte of `s` from `from` up to `to` is a digit.
pub open spec fn all_digits(s: Seq<u8>, from: int, to: int) -> bool {
    forall|i: int| from <= i < to ==> is_digit(#[trigger] s[i])
}

proof fn lemma_pow10_positive(n: nat)
    ensures
        pow10(n) >= 1,
    decreases n,
{
    if n > 0 {
        lemma_pow10_positive((n - 1) as nat);
    }
}

proof fn lemma_pow10_grows(a: nat, b: nat)
    requires
        a <= b,
    ensures
        pow10(a) <= pow10(b),
    decreases b,
{
    if a < b {
        lemma_pow10_grows(a, (b - 1) as nat);
        lemma_pow10_positive((b - 1) as nat);
    }
}

proof fn lemma_pow10_twenty()
    ensures
        pow10(20) > u64::MAX,
{
    reveal_with_fuel(pow10, 21);
}

proof fn lemma_number_below_power(digits: Seq<u8>)
    requires
        all_digits(digits, 0, digits.len() as int),
    ensures
        number_of(digits) < pow10(digits.len()),
    decreases digits.len(),
{
    if digits.len() > 0 {
        let init = digits.drop_last();
        assert(all_digits(init, 0, init.len() as int)) by {
            assert forall|i: int| 0 <= i < init.len() implies is_digit(#[trigger] init[i]) by {
                assert(init[i] == digits[i]);
            }
        }
        lemma_number_below_power(init);
        assert(is_digit(digits[digits.len() - 1]));
    }
}

/// Cutting digits off at the end divides by the power of ten.
proof fn lemma_number_cut(digits: Seq<u8>, cut: nat)
    requires
        all_digits(digits, 0, digits.len() as int),
        cut <= digits.len(),
    ensures
        number_of(digits) / pow10(cut) == number_of(digits.take(digits.len() - cut)),
    decreases cut,
{
    if cut == 0 {
        assert(digits.take(digits.len() as int) == digits);
        assert(pow10(0) == 1);
    } else {
        let init = digits.drop_last();
        let last = (digits.last() - ZERO) as nat;
        assert(number_of(digits) == number_of(init) * 10 + last);
        assert(pow10(cut) == 10 * pow10((cut - 1) as nat));
        assert(is_digit(digits[digits.len() - 1]));
        assert(all_digits(init, 0, init.len() as int)) by {
            assert forall|i: int| 0 <= i < init.len() implies is_digit(#[trigger] init[i]) by {
                assert(init[i] == digits[i]);
            }
        }
        lemma_number_cut(init, (cut - 1) as nat);
        assert(init.take(init.len() - (cut - 1)) == digits.take(digits.len() - cut));
        let n = number_of(init);
        let p = pow10((cut - 1) as nat);
        lemma_pow10_positive((cut - 1) as nat);
        // (n * 10 + last) / (10 * p) == n / p
        vstd::arithmetic::div_mod::lemma_fundamental_div_mod(n as int, p as int);
        let q = n / p;
        let r = n % p;
        assert(n * 10 + last == q * (10 * p) + (r * 10 + last)) by (nonlinear_arith)
            requires
                n == p * q + r,
        ;
        assert(0 <= r * 10 + last < 10 * p) by (nonlinear_arith)
            requires
                0 <= r < p,
                0 <= last <= 9,
        ;
        vstd::arithmetic::div_mod::lemma_fundamental_div_mod_converse(
            (n * 10 + last) as int,
            (10 * p) as int,
            q as int,
            (r * 10 + last) as int,
        );
        assert(number_of(digits) / pow10(cut) == q);
        assert(q == number_of(init.take(init.len() - (cut - 1))));
    }
}

/// Digits that follow never make a number smaller.
proof fn lemma_number_extends(before: Seq<u8>, after: Seq<u8>)
    ensures
        number_of(before + after) >= number_of(before),
    decreases after.len(),
{
    if after.len() == 0 {
        assert(before + after == before);
    } else {
        lemma_number_extends(before, after.drop_last());
        assert((before + after).drop_last() == before + after.drop_last());
    }
}

/// A shift beyond what a count can hold, or below what the digits can
/// reach, gives what the nearest shift within gives.
proof fn lemma_clamped_shift(digits: Seq<u8>, shift: int, negative: bool)
    requires
        all_digits(digits, 0, digits.len() as int),
    ensures
        shift > 20 ==> fits(scaled(digits, shift), negative) == fits(scaled(digits, 20), negative),
        shift < -(digits.len() as int) ==> scaled(digits, shift) == 0,
{
    if shift > 20 {
        lemma_pow10_grows(20, shift as nat);
        lemma_pow10_twenty();
        let n = number_of(digits);
        if n > 0 {
            assert(n * pow10(shift as nat) > u64::MAX) by (nonlinear_arith)
                requires
                    n >= 1,
                    pow10(shift as nat) > u64::MAX,
            ;
            assert(n * pow10(20) > u64::MAX) by (nonlinear_arith)
                requires
                    n >= 1,
                    pow10(20) > u64::MAX,
            ;
        } else {
            assert(n * pow10(shift as nat) == 0) by (nonlinear_arith)
                requires
                    n == 0,
            ;
            assert(n * pow10(20) == 0) by (nonlinear_arith)
                requires
                    n == 0,
            ;
        }
    }
    if shift < -(digits.len() as int) {
        lemma_number_below_power(digits);
        lemma_pow10_grows(digits.len(), (-shift) as nat);
        let n = number_of(digits) as int;
        let p = pow10((-shift) as nat) as int;
        vstd::arithmetic::div_mod::lemma_fundamental_div_mod_converse(n, p, 0, n);
    }
}

fn skip_digits(s: &[u8], from: usize) -> (end: usize)
    requires
        from <= s.len(),
    ensures
        end == digits_end(s@, from as int),
        from <= end <= s.len(),
        all_digits(s@, from as int, end as int),
{
    let mut i = from;
    while i < s.len() && ZERO <= s[i] && s[i] <= NINE
        invariant
            from <= i <= s.len(),
            digits_end(s@, from as int) == digits_end(s@, i as int),
            all_digits(s@, from as int, i as int),
        decreases s.len() - i,
    {
        i += 1;
    }
    i
}

/// Reads on in a run of digits: `so_far` is the number that the digits
/// `before` write; returns the number that they write together with the
/// digits from `from` up to `to`, unless it does not fit.
fn read_digits(s: &[u8], from: usize, to: usize, so_far: u64, Ghost(before): Ghost<Seq<u8>>) -> (number:
    Option<u64>)
    requires
        from <= to <= s.len(),
        all_digits(s@, from as int, to as int),
        so_far == number_of(before),
    ensures
        match number {
            Some(n) => n == number_of(before + s@.subrange(from as int, to as int)),
            None => number_of(before + s@.subrange(from as int, to as int)) > u64::MAX,
        },
{
    let mut acc = so_far;
    let mut i = from;
    assert(before + s@.subrange(from as int, from as int) == before);
    while i < to
        invariant
            from <= i <= to <= s.len(),
            all_digits(s@, from as int, to as int),
            acc == number_of(before + s@.subrange(from as int, i as int)),
        decreases to - i,
    {
        let digit = (s[i] - ZERO) as u64;
        proof {
            let read = before + s@.subrange(from as int, i as int);
            let more = before + s@.subrange(from as int, i + 1);
            assert(more.drop_last() == read);
            assert(more.last() == s@[i as int]);
            let rest = s@.subrange(i + 1, to as int);
            assert(more + rest == before + s@.subrange(from as int, to as int));
            lemma_number_extends(more, rest);
        }
        if acc > (u64::MAX - digit) / 10 {
            return None;
        }
        acc = acc * 10 + digit;
        i += 1;
    }
    Some(acc)
}

/// The exponent's digits as a number, as far as it matters: numbers above
/// 2^70 are all the same to a count that has to fit 64 bits.
fn read_exponent(s: &[u8], from: usize, to: usize) -> (exponent: u128)
    requires
        from <= to <= s.len(),
        all_digits(s@, from as int, to as int),
    ensures
        exponent <= LARGE ==> exponent == number_of(
            s@.subrange(from as int, to as int),
        ),
        exponent > LARGE ==> number_of(s@.subrange(from as int, to as int))
            > LARGE,
        exponent <= 16 * LARGE,
{
    let mut acc: u128 = 0;
    let mut i = from;
    assert(s@.subrange(from as int, from as int) == Seq::<u8>::empty());
    while i < to
        invariant
            from <= i <= to <= s.len(),
            all_digits(s@, from as int, to as int),
            acc <= LARGE ==> acc == number_of(
                s@.subrange(from as int, i as int),
            ),
            acc > LARGE ==> number_of(s@.subrange(from as int, i as int))
                > LARGE,
            acc <= 16 * LARGE,
        decreases to - i,
    {
        proof {
            let read = s@.subrange(from as int, i as int);
            let more = s@.subrange(from as int, i + 1);
            assert(more.drop_last() == read);
            assert(more.last() == s@[i as int]);
        }
        if acc <= LARGE {
            acc = acc * 10 + (s[i] - ZERO) as u128;
        }
        i += 1;
    }
    acc
}

/// The digits of `whole` and `fraction` times ten to the power of
/// `shift`, which lies between -2^65 and 20.
fn scale(s: &[u8], w0: usize, w1: usize, f0: usize, f1: usize, shift: i128, negative: bool) -> (nanos:
    Option<u64>)
    requires
        w0 <= w1 <= f0 <= f1 <= s.len(),
        all_digits(s@, w0 as int, w1 as int),
        all_digits(s@, f0 as int, f1 as int),
        -FAR <= shift <= 20,
    ensures
        nanos == fits(
            scaled(
                s@.subrange(w0 as int, w1 as int) + s@.subrange(f0 as int, f1 as int),
                shift as int,
            ),
            negative,
        ),
{
    let ghost whole = s@.subrange(w0 as int, w1 as int);
    let ghost fraction = s@.subrange(f0 as int, f1 as int);
    let ghost digits = whole + fraction;
    assert(all_digits(digits, 0, digits.len() as int)) by {
        assert forall|i: int| 0 <= i < digits.len() implies is_digit(#[trigger] digits[i]) by {
            if i < whole.len() {
                assert(digits[i] == s@[w0 + i]);
            } else {
                assert(digits[i] == s@[f0 + (i - whole.len())]);
            }
        }
    }
    let whole_len = w1 - w0;
    let fraction_len = f1 - f0;
    // how many of the digits stand before the point of the result
    let keep: i128 = whole_len as i128 + fraction_len as i128 + (if shift < 0 { shift } else { 0 });
    if keep <= 0 {
        proof {
            if keep < 0 {
                lemma_clamped_shift(digits, shift as int, negative);
            } else {
                lemma_number_cut(digits, digits.len());
                assert(digits.take(0) == Seq::<u8>::empty());
                if shift >= 0 {
                    assert(digits.len() == 0);
                    assert(number_of(digits) * pow10(shift as nat) == 0) by (nonlinear_arith)
                        requires
                            number_of(digits) == 0,
                    ;
                }
            }
        }
        return Some(0);
    }
    let keep_whole: usize = if keep >= whole_len as i128 {
        whole_len
    } else {
        keep as usize
    };
    let keep_fraction: usize = (keep - keep_whole as i128) as usize;
    let ghost kept = digits.take(keep as int);
    proof {
        assert(kept == s@.subrange(w0 as int, w0 + keep_whole) + s@.subrange(
            f0 as int,
            f0 + keep_fraction,
        ));
        assert(all_digits(s@, w0 as int, w0 + keep_whole));
        assert(all_digits(s@, f0 as int, f0 + keep_fraction));
        if shift < 0 {
            lemma_number_cut(digits, (-shift) as nat);
        } else {
            assert(kept == digits);
        }
        lemma_number_extends(kept, Seq::empty());
    }
    let first = match read_digits(s, w0, w0 + keep_whole, 0, Ghost(Seq::empty())) {
        Some(n) => n,
        None => {
            proof {
                assert(Seq::<u8>::empty() + s@.subrange(w0 as int, w0 + keep_whole) == s@.subrange(
                    w0 as int,
                    w0 + keep_whole,
                ));
                lemma_number_extends(
                    s@.subrange(w0 as int, w0 + keep_whole),
                    s@.subrange(f0 as int, f0 + keep_fraction),
                );
                lemma_too_large(digits, kept, shift as int, negative);
            }
            return None;
        },
    };
    assert(Seq::<u8>::empty() + s@.subrange(w0 as int, w0 + keep_whole) == s@.subrange(
        w0 as int,
        w0 + keep_whole,
    ));
    let number = match read_digits(
        s,
        f0,
        f0 + keep_fraction,
        first,
        Ghost(s@.subrange(w0 as int, w0 + keep_whole)),
    ) {
        Some(n) => n,
        None => {
            proof {
                lemma_too_large(digits, kept, shift as int, negative);
            }
            return None;
        },
    };
    assert(number == number_of(kept));
    if shift <= 0 {
        proof {
            if shift == 0 {
                assert(pow10(0) == 1);
                assert(number_of(digits) * pow10(0) == number_of(digits)) by (nonlinear_arith)
                    requires
                        pow10(0) == 1,
                ;
            }
        }
        return if negative && number > 0 {
            None
        } else {
            Some(number)
        };
    }
    let mut acc = number;
    let mut done: i128 = 0;
    assert(pow10(0) == 1);
    assert(number * pow10(0) == number) by (nonlinear_arith)
        requires
            pow10(0) == 1,
    ;
    while done < shift
        invariant
            0 <= done <= shift <= 20,
            acc == number * pow10(done as nat),
            number == number_of(digits),
            digits == s@.subrange(w0 as int, w1 as int) + s@.subrange(f0 as int, f1 as int),
        decreases shift - done,
    {
        proof {
            assert(pow10((done + 1) as nat) == 10 * pow10(done as nat));
            assert(number * pow10((done + 1) as nat) == acc * 10) by (nonlinear_arith)
                requires
                    acc == number * pow10(done as nat),
                    pow10((done + 1) as nat) == 10 * pow10(done as nat),
            ;
        }
        if acc > u64::MAX / 10 {
            proof {
                lemma_pow10_grows((done + 1) as nat, shift as nat);
                assert(number * pow10(shift as nat) >= number * pow10((done + 1) as nat))
                    by (nonlinear_arith)
                    requires
                        pow10((done + 1) as nat) <= pow10(shift as nat),
                        number >= 0,
                ;
            }
            return None;
        }
        acc = acc * 10;
        done += 1;
    }
    if negative && acc > 0 {
        None
    } else {
        Some(acc)
    }
}

/// Digits that do not fit before the point do not fit at all.
proof fn lemma_too_large(digits: Seq<u8>, kept: Seq<u8>, shift: int, negative: bool)
    requires
        number_of(kept) > u64::MAX,
        shift < 0 ==> number_of(digits) / pow10((-shift) as nat) == number_of(kept),
        shift >= 0 ==> kept == digits,
    ensures
        fits(scaled(digits, shift), negative) is None,
{
    if shift >= 0 {
        lemma_pow10_positive(shift as nat);
        assert(number_of(digits) * pow10(shift as nat) >= number_of(digits)) by (nonlinear_arith)
            requires
                pow10(shift as nat) >= 1,
        ;
    }
}

/// The exponent from `at` on, as far as it matters: exact up to 2^70 either
/// way, and beyond that only its sign.
fn read_exponent_at(s: &[u8], at: usize) -> (exponent: Option<i128>)
    requires
        at <= s.len(),
    ensures
        exponent is Some <==> exponent_at(s@, at as int) is Some,
        exponent matches Some(e) ==> {
            let stated = exponent_at(s@, at as int)->Some_0;
            &&& -16 * LARGE <= e <= 16 * LARGE
            &&& -(LARGE as int) <= e <= LARGE ==> e == stated
            &&& e > LARGE ==> stated > LARGE
            &&& e < -(LARGE as int) ==> stated < -(LARGE as int)
        },
{
    if at == s.len() {
        return Some(0);
    }
    if !(s[at] == LOWER_E || s[at] == UPPER_E) {
        return None;
    }
    let signed = at + 1 < s.len() && (s[at + 1] == PLUS || s[at + 1] == MINUS);
    let q0: usize = if signed { at + 2 } else { at + 1 };
    let q1 = skip_digits(s, q0);
    if q1 == q0 || q1 != s.len() {
        return None;
    }
    let exponent = read_exponent(s, q0, q1);
    if signed && s[at + 1] == MINUS {
        Some(-(exponent as i128))
    } else {
        Some(exponent as i128)
    }
}

/// Reads the bytes of a decimal text of seconds as nanoseconds: see
/// [`nanoseconds_of`].
pub fn nanoseconds_of_bytes(s: &[u8]) -> (nanos: Option<u64>)
    ensures
        nanos == nanoseconds_of(s@),
{
    let signed = s.len() > 0 && (s[0] == PLUS || s[0] == MINUS);
    let negative = signed && s[0] == MINUS;
    let w0: usize = if signed { 1 } else { 0 };
    let w1 = skip_digits(s, w0);
    let dotted = w1 < s.len() && s[w1] == POINT;
    let f0: usize = if dotted { w1 + 1 } else { w1 };
    let f1 = if dotted { skip_digits(s, w1 + 1) } else { w1 };
    let ghost whole = s@.subrange(w0 as int, w1 as int);
    let ghost fraction = s@.subrange(f0 as int, f1 as int);
    assert(!dotted ==> fraction == Seq::<u8>::empty());
    if w1 == w0 && f1 == f0 {
        return None;
    }
    let exponent = match read_exponent_at(s, f1) {
        None => { return None; },
        Some(exponent) => exponent,
    };
    let shift: i128 = 9 - (f1 - f0) as i128 + exponent;
    let clamped: i128 = if shift > 20 {
        20
    } else if shift < -FAR {
        -FAR
    } else {
        shift
    };
    proof {
        let digits = whole + fraction;
        let stated = decimal_of(s@)->Some_0;
        assert(stated.digits == digits);
        assert(all_digits(digits, 0, digits.len() as int)) by {
            assert forall|i: int| 0 <= i < digits.len() implies is_digit(#[trigger] digits[i]) by {
                if i < whole.len() {
                    assert(digits[i] == s@[w0 + i]);
                } else {
                    assert(digits[i] == s@[f0 + (i - whole.len())]);
                }
            }
        }
        lemma_clamped_shift(digits, stated.shift + 9, negative);
        lemma_clamped_shift(digits, clamped as int, negative);
    }
    scale(s, w0, w1, f0, f1, clamped, negative)
}

/// Reads a counter's text, in seconds, as nanoseconds: see
/// [`nanoseconds_of`].
pub fn nanoseconds(text: &str) -> (nanos: Option<u64>)
    ensures
        nanos == nanoseconds_of(text.spec_bytes()),
{
    nanoseconds_of_bytes(text.as_bytes())
}

} // verus!
