//! Exact decimal numbers read from text.
//!
//! Prices and quantities arrive as decimal strings. They are read into a
//! fixed-point value with eighteen fractional digits, so that every rule that
//! speaks of "the fractional part" or "the integer part" is decided exactly.
//!
//! A numeral is an optional sign, digits, and optionally a point with more
//! digits. Text in any other form does not parse: an exponent, a name such
//! as `inf` or `NaN`, blanks, or a whole part of more than eighteen digits.
//! A level whose number does not parse is left out by whoever asked.

use vstd::prelude::*;

verus! {

/// Units per whole: a value is held as a count of 10^-18.
pub const SCALE: i128 = 1_000_000_000_000_000_000;

/// A decimal number, as a signed count of 10^-18 units.
#[derive(Debug, Clone, Copy, PartialEq, Eq, Structural)]
pub struct Decimal {
    pub units: i128,
}

/// An ASCII digit.
pub open spec fn is_digit(b: u8) -> bool {
    48 <= b && b <= 57
}

/// Every byte is an ASCII digit.
pub open spec fn all_digits(s: Seq<u8>) -> bool {
    forall|i: int| 0 <= i < s.len() ==> is_digit(#[trigger] s[i])
}

/// The number that a run of ASCII digits writes in base ten.
pub open spec fn digits_value(s: Seq<u8>) -> nat
    decreases s.len(),
{
    if s.len() == 0 {
        0
    } else {
        digits_value(s.drop_last()) * 10 + (s.last() - 48) as nat
    }
}

/// Ten to the power of `n`.
pub open spec fn pow10(n: nat) -> nat
    decreases n,
{
    if n == 0 {
        1
    } else {
        10 * pow10((n - 1) as nat)
    }
}

/// Units contributed by a digit at fractional place `i` (0 is the tenths).
/// Places past the eighteenth contribute nothing.
pub open spec fn place_value(i: int) -> nat {
    if 0 <= i < 18 {
        pow10((17 - i) as nat)
    } else {
        0
    }
}

/// Units written by the digits after the decimal point.
pub open spec fn fraction_units(s: Seq<u8>) -> nat
    decreases s.len(),
{
    if s.len() == 0 {
        0
    } else {
        fraction_units(s.drop_last()) + (s.last() - 48) as nat * place_value(s.len() - 1)
    }
}

/// Length of a leading `+` or `-`.
pub open spec fn sign_len(s: Seq<u8>) -> int {
    if s.len() > 0 && (s[0] == 43 || s[0] == 45) {
        1
    } else {
        0
    }
}

/// The numeral starts with `-`.
pub open spec fn is_negative(s: Seq<u8>) -> bool {
    s.len() > 0 && s[0] == 45
}

/// Index of the first `.` in `s`, or its length where there is none.
pub open spec fn point_index(s: Seq<u8>) -> int
    decreases s.len(),
{
    if s.len() == 0 || s[0] == 46 {
        0
    } else {
        1 + point_index(s.drop_first())
    }
}

/// The digits before the decimal point, sign removed.
pub open spec fn whole_digits(s: Seq<u8>) -> Seq<u8> {
    let body = s.subrange(sign_len(s), s.len() as int);
    body.subrange(0, point_index(body))
}

/// The digits after the decimal point; empty where there is no point.
pub open spec fn fraction_digits(s: Seq<u8>) -> Seq<u8> {
    let body = s.subrange(sign_len(s), s.len() as int);
    let point = point_index(body);
    if point < body.len() {
        body.subrange(point + 1, body.len() as int)
    } else {
        Seq::empty()
    }
}

/// Whether `s` is a decimal numeral that this library reads: an optional
/// sign, digits, optionally a point and more digits, with at least one digit
/// in all and a whole part below 10^18.
pub open spec fn is_decimal(s: Seq<u8>) -> bool {
    &&& all_digits(whole_digits(s))
    &&& all_digits(fraction_digits(s))
    &&& whole_digits(s).len() + fraction_digits(s).len() > 0
    &&& digits_value(whole_digits(s)) < SCALE
}

/// The value of a numeral in units of 10^-18, or `None` where `s` is not one.
pub open spec fn decimal_units(s: Seq<u8>) -> Option<int> {
    if is_decimal(s) {
        let magnitude = digits_value(whole_digits(s)) * SCALE + fraction_units(fraction_digits(s));
        Some(
            if is_negative(s) {
                -magnitude
            } else {
                magnitude as int
            },
        )
    } else {
        None
    }
}

/// What `point_index` finds: no `.` before it, and a `.` at it unless it is
/// the end.
pub proof fn lemma_point_index(s: Seq<u8>)
    ensures
        0 <= point_index(s) <= s.len(),
        forall|j: int| 0 <= j < point_index(s) ==> s[j] != 46,
        point_index(s) < s.len() ==> s[point_index(s)] == 46,
    decreases s.len(),
{
    if s.len() == 0 || s[0] == 46 {
    } else {
        let rest = s.drop_first();
        lemma_point_index(rest);
        assert forall|j: int| 0 <= j < point_index(s) implies s[j] != 46 by {
            if j > 0 {
                assert(s[j] == rest[j - 1]);
            }
        }
        if point_index(s) < s.len() {
            assert(s[point_index(s)] == rest[point_index(rest)]);
        }
    }
}

proof fn lemma_pow10_positive(n: nat)
    ensures
        pow10(n) > 0,
    decreases n,
{
    if n > 0 {
        lemma_pow10_positive((n - 1) as nat);
    }
}

proof fn lemma_pow10_17()
    ensures
        pow10(17) == 100_000_000_000_000_000,
{
    reveal_with_fuel(pow10, 18);
}

/// The size of a count of units, sign removed.
pub open spec fn magnitude(units: int) -> int {
    if units >= 0 {
        units
    } else {
        -units
    }
}

/// A quotient rounded toward zero.
pub open spec fn quotient_toward_zero(x: int, n: int) -> int
    recommends
        n > 0,
{
    if x >= 0 {
        x / n
    } else {
        -((-x) / n)
    }
}

/// The integer part of a count of units: the wholes, rounded toward zero.
pub open spec fn whole_part(units: int) -> int {
    quotient_toward_zero(units, SCALE as int)
}

/// The product of two values in units, rounded toward zero.
pub open spec fn product_units(a: int, b: int) -> int {
    quotient_toward_zero(a * b, SCALE as int)
}

/// The product of two values, or `None` where its size does not fit.
pub open spec fn product(a: int, b: int) -> Option<Decimal> {
    if magnitude(product_units(a, b)) <= i128::MAX {
        Some(Decimal { units: product_units(a, b) as i128 })
    } else {
        None
    }
}

/// The product of two sizes, each split at the scale: the whole parts
/// multiply to wholes of wholes, the mixed terms to wholes, and only the
/// product of the two fractions is rounded.
proof fn lemma_split_product(a1: int, a0: int, b1: int, b0: int)
    requires
        0 <= a1,
        0 <= b1,
        0 <= a0 < SCALE,
        0 <= b0 < SCALE,
    ensures
        ((a1 * SCALE + a0) * (b1 * SCALE + b0)) / (SCALE as int) == a1 * b1 * SCALE + a1 * b0 + a0
            * b1 + (a0 * b0) / (SCALE as int),
        a1 * b1 >= 0,
        a1 * b0 >= 0,
        a0 * b1 >= 0,
        a0 * b0 >= 0,
        a1 * b1 * SCALE >= 0,
        a1 * b0 <= a1 * SCALE,
        a0 * b1 <= b1 * SCALE,
        a0 * b0 < SCALE * SCALE,
{
    let s = SCALE as int;
    let low = a0 * b0;
    assert(low >= 0 && a1 * b1 >= 0 && a1 * b0 >= 0 && a0 * b1 >= 0 && a1 * b1 * s >= 0)
        by (nonlinear_arith)
        requires
            0 <= a1,
            0 <= b1,
            0 <= a0,
            0 <= b0,
            s > 0,
            low == a0 * b0,
    ;
    assert(a1 * b0 <= a1 * s && a0 * b1 <= b1 * s && a0 * b0 < s * s) by (nonlinear_arith)
        requires
            0 <= a1,
            0 <= b1,
            0 <= a0 < s,
            0 <= b0 < s,
    ;
    vstd::arithmetic::div_mod::lemma_fundamental_div_mod(low, s);
    let q = a1 * b1 * s + a1 * b0 + a0 * b1 + low / s;
    let r = low % s;
    let x = a1 * b1;
    let y = a1 * b0;
    let z = a0 * b1;
    let b = b1 * s + b0;
    assert((a1 * s + a0) * b == (a1 * s) * b + a0 * b) by (nonlinear_arith);
    assert((a1 * s) * b == (a1 * s) * (b1 * s) + (a1 * s) * b0) by (nonlinear_arith)
        requires
            b == b1 * s + b0,
    ;
    assert(a0 * b == a0 * (b1 * s) + a0 * b0) by (nonlinear_arith)
        requires
            b == b1 * s + b0,
    ;
    assert((a1 * s) * (b1 * s) == (x * s) * s) by (nonlinear_arith)
        requires
            x == a1 * b1,
    ;
    assert((a1 * s) * b0 == y * s) by (nonlinear_arith)
        requires
            y == a1 * b0,
    ;
    assert(a0 * (b1 * s) == z * s) by (nonlinear_arith)
        requires
            z == a0 * b1,
    ;
    assert(q * s == (x * s) * s + y * s + z * s + (low / s) * s) by (nonlinear_arith)
        requires
            q == x * s + y + z + low / s,
    ;
    assert((a1 * s + a0) * (b1 * s + b0) == q * s + r);
    vstd::arithmetic::div_mod::lemma_fundamental_div_mod_converse_div(
        (a1 * s + a0) * (b1 * s + b0),
        s,
        q,
        r,
    );
}

/// The fractional part of a count of units, in units: what is left of the
/// value once its integer part is taken away. It has the sign of the value.
pub open spec fn fraction_part(units: int) -> int {
    units - whole_part(units) * SCALE
}

impl Decimal {
    /// The number of units, as a mathematical integer.
    pub open spec fn value(self) -> int {
        self.units as int
    }

    /// The size of the value in units, sign removed.
    pub fn magnitude(&self) -> (m: u128)
        ensures
            m == magnitude(self.value()),
    {
        if self.units >= 0 {
            self.units as u128
        } else if self.units == i128::MIN {
            170141183460469231731687303715884105728u128
        } else {
            (-self.units) as u128
        }
    }

    /// The sizes of the integer part and of the fractional part, the latter
    /// in units. Both parts have the sign of the value.
    pub fn parts(&self) -> (r: (u128, u128))
        ensures
            r.0 == magnitude(whole_part(self.value())),
            r.1 == magnitude(fraction_part(self.value())),
            r.1 < SCALE,
            self.units >= 0 ==> whole_part(self.value()) >= 0 && fraction_part(self.value()) >= 0,
            self.units < 0 ==> whole_part(self.value()) <= 0 && fraction_part(self.value()) <= 0,
    {
        let m: u128 = self.magnitude();
        (m / 1_000_000_000_000_000_000u128, m % 1_000_000_000_000_000_000u128)
    }

    /// The product of two values, rounded toward zero at the eighteenth
    /// fractional digit; `None` where its size does not fit.
    pub fn times(&self, other: &Decimal) -> (r: Option<Decimal>)
        ensures
            r == product(self.value(), other.value()),
    {
        let ma: u128 = self.magnitude();
        let mb: u128 = other.magnitude();
        let a1: u128 = ma / 1_000_000_000_000_000_000u128;
        let a0: u128 = ma % 1_000_000_000_000_000_000u128;
        let b1: u128 = mb / 1_000_000_000_000_000_000u128;
        let b0: u128 = mb % 1_000_000_000_000_000_000u128;
        let ghost size = (ma * mb) / (SCALE as int);
        proof {
            lemma_split_product(a1 as int, a0 as int, b1 as int, b0 as int);
            assert(ma == a1 * SCALE + a0);
            assert(mb == b1 * SCALE + b0);
            let a = self.value();
            let b = other.value();
            assert(ma * mb >= 0) by (nonlinear_arith)
                requires
                    ma >= 0,
                    mb >= 0,
            ;
            // The size of the product is the product of the sizes.
            assert(magnitude(a * b) == ma * mb) by (nonlinear_arith)
                requires
                    ma == magnitude(a),
                    mb == magnitude(b),
            ;
            assert(magnitude(product_units(a, b)) == size);
            assert((a * b >= 0) || ((a < 0) != (b < 0))) by (nonlinear_arith);
            assert(((a < 0) != (b < 0)) ==> a * b <= 0) by (nonlinear_arith);
        }
        let high: u128 = match a1.checked_mul(b1) {
            Some(wholes) => match wholes.checked_mul(1_000_000_000_000_000_000u128) {
                Some(high) => high,
                None => {
                    return None;
                },
            },
            None => {
                proof {
                    assert(a1 * b1 * SCALE >= a1 * b1) by (nonlinear_arith)
                        requires
                            a1 * b1 >= 0,
                            SCALE >= 1,
                    ;
                }
                return None;
            },
        };
        let middle: u128 = match (a1 * b0).checked_add(a0 * b1) {
            Some(middle) => middle,
            None => {
                return None;
            },
        };
        let low: u128 = (a0 * b0) / 1_000_000_000_000_000_000u128;
        let total: u128 = match high.checked_add(middle) {
            Some(sum) => match sum.checked_add(low) {
                Some(total) => total,
                None => {
                    return None;
                },
            },
            None => {
                return None;
            },
        };
        if total > 0x7fff_ffff_ffff_ffff_ffff_ffff_ffff_ffffu128 {
            return None;
        }
        let negative: bool = (self.units < 0) != (other.units < 0);
        Some(
            Decimal {
                units: if negative {
                    -(total as i128)
                } else {
                    total as i128
                },
            },
        )
    }

    /// The distance between two values, in units.
    pub fn distance(&self, other: &Decimal) -> (d: u128)
        ensures
            d == magnitude(other.value() - self.value()),
    {
        let (low, high): (i128, i128) = if self.units <= other.units {
            (self.units, other.units)
        } else {
            (other.units, self.units)
        };
        if low >= 0 || high < 0 {
            (high - low) as u128
        } else {
            let below = Decimal { units: low };
            high as u128 + below.magnitude()
        }
    }
}

/// The decimal that `s` writes, where it writes one.
pub open spec fn decimal_value(s: Seq<u8>) -> Option<Decimal> {
    match decimal_units(s) {
        Some(u) => Some(Decimal { units: u as i128 }),
        None => None,
    }
}

/// The magnitude of every numeral that is read stays below 10^36.
pub proof fn lemma_decimal_bound(s: Seq<u8>)
    requires
        is_decimal(s),
    ensures
        -(SCALE * SCALE) < decimal_units(s).unwrap() < SCALE * SCALE,
        decimal_value(s).unwrap().value() == decimal_units(s).unwrap(),
{
    lemma_fraction_bound(fraction_digits(s));
    let w = digits_value(whole_digits(s)) as int;
    let f = fraction_units(fraction_digits(s)) as int;
    assert(w * SCALE + f < SCALE * SCALE) by (nonlinear_arith)
        requires
            0 <= w < SCALE,
            0 <= f < SCALE,
            SCALE == 1_000_000_000_000_000_000,
    ;
    assert(SCALE * SCALE == 1_000_000_000_000_000_000_000_000_000_000_000_000) by (nonlinear_arith)
        requires
            SCALE == 1_000_000_000_000_000_000,
    ;
    assert(w * SCALE >= 0) by (nonlinear_arith)
        requires
            0 <= w,
            SCALE == 1_000_000_000_000_000_000,
    ;
}

/// The digits after the point never add up to a whole.
pub proof fn lemma_fraction_bound(s: Seq<u8>)
    requires
        all_digits(s),
    ensures
        fraction_units(s) + 10 * place_value(s.len() as int) <= SCALE,
        s.len() >= 18 ==> fraction_units(s) < SCALE,
        fraction_units(s) < SCALE,
    decreases s.len(),
{
    lemma_pow10_17();
    if s.len() == 0 {
    } else {
        let init = s.drop_last();
        assert forall|i: int| 0 <= i < init.len() implies is_digit(#[trigger] init[i]) by {
            assert(init[i] == s[i]);
        }
        lemma_fraction_bound(init);
        let n = s.len() as int;
        let d = (s.last() - 48) as nat;
        assert(is_digit(s[n - 1]));
        assert(d <= 9);
        if n - 1 < 18 {
            let w = place_value(n - 1);
            lemma_pow10_positive((17 - (n - 1)) as nat);
            assert(10 * place_value(n) <= w) by {
                if n < 18 {
                    assert(pow10((17 - (n - 1)) as nat) == 10 * pow10((17 - n) as nat));
                }
            }
            assert(d * w <= 9 * w) by (nonlinear_arith)
                requires
                    d <= 9,
                    w >= 0,
            ;
        } else {
            assert(place_value(n - 1) == 0);
            assert(d * place_value(n - 1) == 0) by (nonlinear_arith)
                requires
                    place_value(n - 1) == 0,
            ;
        }
        if s.len() > 0 {
            lemma_pow10_positive(0);
        }
    }
}

/// Reads the digits of a whole part from `bytes[start..]` up to the first
/// byte that is not a digit. Returns where it stopped, the value read, and
/// whether that value reached 10^18.
fn scan_whole(bytes: &[u8], start: usize) -> (r: (usize, i128, bool))
    requires
        start <= bytes.len(),
    ensures
        start <= r.0 <= bytes.len(),
        all_digits(bytes@.subrange(start as int, r.0 as int)),
        r.0 < bytes.len() ==> !is_digit(bytes[r.0 as int]),
        r.2 == (digits_value(bytes@.subrange(start as int, r.0 as int)) >= SCALE),
        !r.2 ==> r.1 == digits_value(bytes@.subrange(start as int, r.0 as int)),
{
    let mut i: usize = start;
    let mut acc: i128 = 0;
    let mut too_large: bool = false;
    assert(bytes@.subrange(start as int, start as int) =~= Seq::<u8>::empty());
    while i < bytes.len() && 48 <= bytes[i] && bytes[i] <= 57
        invariant
            start <= i <= bytes.len(),
            all_digits(bytes@.subrange(start as int, i as int)),
            too_large == (digits_value(bytes@.subrange(start as int, i as int)) >= SCALE),
            !too_large ==> acc == digits_value(bytes@.subrange(start as int, i as int)),
            0 <= acc < SCALE,
        decreases bytes.len() - i,
    {
        let digit: i128 = (bytes[i] - 48) as i128;
        proof {
            let before = bytes@.subrange(start as int, i as int);
            let after = bytes@.subrange(start as int, i + 1);
            assert(after.drop_last() =~= before);
            assert(after.last() == bytes[i as int]);
            assert forall|j: int| 0 <= j < after.len() implies is_digit(#[trigger] after[j]) by {
                if j < before.len() {
                    assert(after[j] == before[j]);
                }
            }
        }
        if !too_large {
            acc = acc * 10 + digit;
            if acc >= SCALE {
                too_large = true;
                acc = 0;
            }
        }
        i = i + 1;
    }
    (i, acc, too_large)
}

/// Reads the digits of a fraction from `bytes[start..]` up to the first byte
/// that is not a digit. Returns where it stopped and the units read.
fn scan_fraction(bytes: &[u8], start: usize) -> (r: (usize, i128))
    requires
        start <= bytes.len(),
    ensures
        start <= r.0 <= bytes.len(),
        all_digits(bytes@.subrange(start as int, r.0 as int)),
        r.0 < bytes.len() ==> !is_digit(bytes[r.0 as int]),
        r.1 == fraction_units(bytes@.subrange(start as int, r.0 as int)),
        0 <= r.1 < SCALE,
{
    let mut i: usize = start;
    let mut acc: i128 = 0;
    let mut weight: i128 = 100_000_000_000_000_000;
    proof {
        lemma_pow10_17();
        assert(bytes@.subrange(start as int, start as int) =~= Seq::<u8>::empty());
    }
    while i < bytes.len() && 48 <= bytes[i] && bytes[i] <= 57
        invariant
            start <= i <= bytes.len(),
            all_digits(bytes@.subrange(start as int, i as int)),
            acc == fraction_units(bytes@.subrange(start as int, i as int)),
            weight == place_value(i - start),
            0 <= acc,
            acc + 10 * weight <= SCALE,
        decreases bytes.len() - i,
    {
        let digit: i128 = (bytes[i] - 48) as i128;
        proof {
            let before = bytes@.subrange(start as int, i as int);
            let after = bytes@.subrange(start as int, i + 1);
            assert(after.drop_last() =~= before);
            assert(after.last() == bytes[i as int]);
            assert forall|j: int| 0 <= j < after.len() implies is_digit(#[trigger] after[j]) by {
                if j < before.len() {
                    assert(after[j] == before[j]);
                }
            }
            assert(digit * weight <= 9 * weight) by (nonlinear_arith)
                requires
                    0 <= digit <= 9,
                    weight >= 0,
            ;
            assert(digit * weight >= 0) by (nonlinear_arith)
                requires
                    0 <= digit <= 9,
                    weight >= 0,
            ;
            let k = i - start;
            if k < 17 {
                assert(pow10((17 - k) as nat) == 10 * pow10((17 - (k + 1)) as nat));
            }
            if k == 17 {
                lemma_pow10_positive(0);
                assert(pow10(0) == 1);
            }
        }
        acc = acc + digit * weight;
        weight = weight / 10;
        i = i + 1;
    }
    proof {
        lemma_fraction_bound(bytes@.subrange(start as int, i as int));
    }
    (i, acc)
}

/// Reads a decimal numeral from bytes.
///
/// Returns the value exactly where `bytes` is a numeral (see `is_decimal`),
/// and `None` otherwise. Fractional digits past the eighteenth are read and
/// dropped.
pub fn parse_bytes(bytes: &[u8]) -> (r: Option<Decimal>)
    ensures
        r == decimal_value(bytes@),
{
    let ghost s = bytes@;
    let negative: bool = bytes.len() > 0 && bytes[0] == 45;
    let start: usize = if bytes.len() > 0 && (bytes[0] == 43 || bytes[0] == 45) {
        1
    } else {
        0
    };
    let ghost body = s.subrange(start as int, s.len() as int);
    proof {
        lemma_point_index(body);
    }
    let (stop, whole, too_large) = scan_whole(bytes, start);
    proof {
        assert forall|j: int| 0 <= j < stop - start implies body[j] != 46 by {
            assert(is_digit(s.subrange(start as int, stop as int)[j]));
        }
    }
    if stop < bytes.len() && bytes[stop] != 46 {
        proof {
            // A byte that is neither a digit nor the point sits in the whole part.
            assert(body[stop - start] == s[stop as int]);
            assert(point_index(body) > stop - start);
            assert(whole_digits(s)[stop - start] == s[stop as int]);
        }
        return None;
    }
    proof {
        assert(stop < s.len() ==> body[stop - start] == 46);
        assert(point_index(body) == stop - start);
        assert(whole_digits(s) =~= s.subrange(start as int, stop as int));
    }
    let (end, fraction): (usize, i128) = if stop < bytes.len() {
        scan_fraction(bytes, stop + 1)
    } else {
        (stop, 0)
    };
    if end < bytes.len() {
        proof {
            assert(fraction_digits(s)[end - (stop + 1)] == s[end as int]);
        }
        return None;
    }
    proof {
        if stop < s.len() {
            assert(fraction_digits(s) =~= s.subrange(stop + 1, end as int));
        } else {
            assert(fraction_digits(s) =~= Seq::<u8>::empty());
        }
    }
    let digit_count: usize = (stop - start) + (if stop < bytes.len() {
        end - (stop + 1)
    } else {
        0
    });
    if digit_count == 0 || too_large {
        return None;
    }
    proof {
        lemma_decimal_bound(s);
        assert(whole * SCALE >= 0) by (nonlinear_arith)
            requires
                0 <= whole,
                SCALE == 1_000_000_000_000_000_000,
        ;
    }
    let magnitude: i128 = whole * SCALE + fraction;
    Some(
        Decimal {
            units: if negative {
                -magnitude
            } else {
                magnitude
            },
        },
    )
}

/// Reads a decimal numeral from text: the numeral that its UTF-8 bytes write.
pub fn parse_decimal(text: &str) -> (r: Option<Decimal>)
    ensures
        r == decimal_of_text(text@),
{
    parse_bytes(text.as_bytes())
}

/// The decimal that a text writes, where it writes one.
pub open spec fn decimal_of_text(text: Seq<char>) -> Option<Decimal> {
    decimal_value(vstd::utf8::encode_utf8(text))
}

} // verus!
