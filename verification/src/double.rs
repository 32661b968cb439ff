//! Double-precision numbers, read from their bit pattern and computed with exactly.
//!
//! A finite double is an integer significand times a power of two. Everything that the
//! timestamp rules ask of one (its sign, how it compares with a bound, its product with a
//! whole number, the integer nearest to it) is therefore integer arithmetic.
use vstd::arithmetic::div_mod::lemma_div_denominator;
use vstd::arithmetic::div_mod::lemma_fundamental_div_mod;
use vstd::arithmetic::power2::lemma2_to64;
use vstd::arithmetic::power2::lemma2_to64_rest;
use vstd::arithmetic::power2::lemma_pow2_adds;
use vstd::arithmetic::power2::lemma_pow2_pos;
use vstd::arithmetic::power2::lemma_pow2_strictly_increases;
use vstd::arithmetic::power2::lemma_pow2_unfold;
use vstd::arithmetic::power2::pow2;
use vstd::prelude::*;

verus! {

/// Two to the 52nd: the weight of the exponent field, and of the implicit leading bit.
pub const LEADING_BIT: u64 = 0x10_0000_0000_0000;

/// Two to the 53rd: the first significand that needs more bits than a double has.
pub const SIGNIFICAND_END: u64 = 0x20_0000_0000_0000;

/// Two to the 63rd: the weight of the sign bit.
pub const SIGN_BIT: u64 = 0x8000_0000_0000_0000;

/// The number of values that the exponent field can take.
pub const EXPONENT_FIELD_END: u64 = 2048;

/// The exponent field of the infinities and of the values that are not numbers.
pub const EXPONENT_FIELD_SPECIAL: u64 = 2047;

/// The number `±significand * 2^exponent`.
pub struct Dyadic {
    pub negative: bool,
    pub significand: nat,
    pub exponent: int,
}

/// The exponent field of a bit pattern.
pub open spec fn exponent_field(bits: u64) -> int {
    (bits as int / LEADING_BIT as int) % EXPONENT_FIELD_END as int
}

/// The fraction field of a bit pattern.
pub open spec fn fraction_field(bits: u64) -> int {
    bits as int % LEADING_BIT as int
}

/// Whether the bit pattern stands for a finite double.
pub open spec fn is_finite(bits: u64) -> bool {
    exponent_field(bits) != EXPONENT_FIELD_SPECIAL
}

/// The number that the bit pattern of a finite double stands for.
pub open spec fn double_value(bits: u64) -> Dyadic {
    if exponent_field(bits) == 0 {
        Dyadic {
            negative: bits >= SIGN_BIT,
            significand: fraction_field(bits) as nat,
            exponent: -1074,
        }
    } else {
        Dyadic {
            negative: bits >= SIGN_BIT,
            significand: (LEADING_BIT + fraction_field(bits)) as nat,
            exponent: exponent_field(bits) - 1075,
        }
    }
}

/// How many low bits `n` has beyond the 53 that a significand holds.
pub open spec fn excess_bits(n: nat) -> nat
    decreases n,
{
    if n < SIGNIFICAND_END {
        0
    } else {
        1 + excess_bits(n / 2)
    }
}

/// The integer nearest to `n / d`, and the even one of the two where both are as near.
pub open spec fn divide_ties_even(n: nat, d: nat) -> nat {
    let below = n / d;
    let rest = n % d;
    if 2 * rest < d || (2 * rest == d && below % 2 == 0) {
        below
    } else {
        below + 1
    }
}

/// The nearest `i64`: `n` itself, or the bound that it lies beyond.
pub open spec fn saturated(n: int) -> i64 {
    if n < i64::MIN {
        i64::MIN
    } else if n > i64::MAX {
        i64::MAX
    } else {
        n as i64
    }
}

impl Dyadic {
    /// The whole number `n`.
    pub open spec fn whole(n: nat) -> Dyadic {
        Dyadic { negative: false, significand: n, exponent: 0 }
    }

    /// Whether the number is the integer `n`.
    pub open spec fn is_integer(self, n: int) -> bool {
        let magnitude = if n < 0 {
            -n
        } else {
            n
        };
        &&& n < 0 ==> self.negative
        &&& n > 0 ==> !self.negative
        &&& if self.exponent >= 0 {
            self.significand * pow2(self.exponent as nat) == magnitude
        } else {
            self.significand == magnitude * pow2((-self.exponent) as nat)
        }
    }

    /// Whether the number is greater than zero.
    pub open spec fn positive(self) -> bool {
        !self.negative && self.significand > 0
    }

    /// Whether the magnitude is less than `bound`.
    pub open spec fn magnitude_below(self, bound: nat) -> bool {
        if self.exponent >= 0 {
            self.significand * pow2(self.exponent as nat) < bound
        } else {
            self.significand < bound * pow2((-self.exponent) as nat)
        }
    }

    /// Whether the number lies in the half-open range from zero to `bound`.
    pub open spec fn in_range_from_zero(self, bound: nat) -> bool {
        (!self.negative || self.significand == 0) && self.magnitude_below(bound)
    }

    /// The integer nearest to the magnitude, and the greater of the two where both are as
    /// near.
    pub open spec fn rounded_magnitude(self) -> nat {
        if self.exponent >= 0 {
            self.significand * pow2(self.exponent as nat)
        } else {
            let unit = pow2((-self.exponent) as nat);
            (2 * self.significand + unit) / (2 * unit)
        }
    }

    /// The integer nearest to the number, and the one farther from zero where both are as
    /// near.
    pub open spec fn rounded(self) -> int {
        if self.negative {
            -(self.rounded_magnitude() as int)
        } else {
            self.rounded_magnitude() as int
        }
    }

    /// The double nearest to the number, with ties going to the even significand. The
    /// exponent is taken to be one that doubles reach.
    pub open spec fn nearest_double(self) -> Dyadic {
        let excess = excess_bits(self.significand);
        Dyadic {
            negative: self.negative,
            significand: divide_ties_even(self.significand, pow2(excess)),
            exponent: self.exponent + excess,
        }
    }

    /// The product with `factor` as double arithmetic gives it: the double nearest to the
    /// exact product.
    pub open spec fn times(self, factor: nat) -> Dyadic {
        Dyadic { significand: self.significand * factor, ..self }.nearest_double()
    }
}

/// A finite double, taken apart.
#[derive(Clone, Copy, Debug)]
pub struct Double {
    pub negative: bool,
    pub significand: u64,
    pub exponent: i32,
}

impl View for Double {
    type V = Dyadic;

    open spec fn view(&self) -> Dyadic {
        Dyadic {
            negative: self.negative,
            significand: self.significand as nat,
            exponent: self.exponent as int,
        }
    }
}

/// Two to the power `k`.
fn power_of_two(k: u32) -> (r: u128)
    requires
        k <= 64,
    ensures
        r == pow2(k as nat),
        1 <= r <= 0x1_0000_0000_0000_0000,
{
    let mut r: u128 = 1;
    let mut i: u32 = 0;
    proof {
        lemma2_to64();
    }
    while i < k
        invariant
            i <= k <= 64,
            r == pow2(i as nat),
            r <= 0x1_0000_0000_0000_0000,
        decreases k - i,
    {
        proof {
            lemma_pow2_unfold((i + 1) as nat);
            if i + 1 < 64 {
                lemma_pow2_strictly_increases((i + 1) as nat, 64);
            }
            lemma2_to64();
        }
        r = r * 2;
        i = i + 1;
    }
    proof {
        lemma_pow2_pos(k as nat);
    }
    r
}

/// Halving `n / 2^k` once more.
proof fn lemma_halve(n: nat, k: nat)
    ensures
        (n / pow2(k)) / 2 == n / pow2(k + 1),
        pow2(k + 1) == 2 * pow2(k),
{
    lemma_pow2_pos(k);
    lemma_pow2_unfold(k + 1);
    lemma_div_denominator(n as int, pow2(k) as int, 2);
    assert(pow2(k) * 2 == pow2(k + 1));
}

/// A number below `2^(53 + k)` has at most `k` excess bits.
proof fn lemma_excess_bound(n: nat, k: nat)
    requires
        n < SIGNIFICAND_END * pow2(k),
    ensures
        excess_bits(n) <= k,
    decreases k,
{
    lemma2_to64();
    if k > 0 {
        lemma_pow2_unfold(k);
        assert(n / 2 < SIGNIFICAND_END * pow2((k - 1) as nat)) by (nonlinear_arith)
            requires
                n < SIGNIFICAND_END * pow2(k),
                pow2(k) == 2 * pow2((k - 1) as nat),
        ;
        lemma_excess_bound(n / 2, (k - 1) as nat);
    }
}

impl Double {
    /// Reads a bit pattern; `None` for the infinities and for what is not a number.
    pub fn from_bits(bits: u64) -> (r: Option<Double>)
        ensures
            r is Some <==> is_finite(bits),
            r matches Some(d) ==> d@ == double_value(bits) && d.significand < SIGNIFICAND_END
                && -1074 <= d.exponent <= 971,
    {
        let field: u64 = (bits / LEADING_BIT) % EXPONENT_FIELD_END;
        let fraction: u64 = bits % LEADING_BIT;
        let negative = bits >= SIGN_BIT;
        if field == EXPONENT_FIELD_SPECIAL {
            None
        } else if field == 0 {
            Some(Double { negative, significand: fraction, exponent: -1074 })
        } else {
            Some(
                Double {
                    negative,
                    significand: LEADING_BIT + fraction,
                    exponent: field as i32 - 1075,
                },
            )
        }
    }

    /// The double nearest to `±n * 2^exponent`.
    fn nearest(negative: bool, n: u64, exponent: i32) -> (r: Double)
        requires
            -2000 <= exponent <= 2000,
        ensures
            r@ == (Dyadic { negative, significand: n as nat, exponent: exponent as int }).nearest_double(),
            r.significand <= SIGNIFICAND_END,
            exponent <= r.exponent <= exponent + 11,
    {
        let mut k: u32 = 0;
        let mut high: u64 = n;
        proof {
            lemma2_to64();
            lemma_excess_bound(n as nat, 11);
            assert(n / 1 == n);
        }
        while high >= SIGNIFICAND_END
            invariant
                high == n as nat / pow2(k as nat),
                excess_bits(n as nat) == k + excess_bits(high as nat),
                excess_bits(n as nat) <= 11,
            decreases high,
        {
            proof {
                lemma_halve(n as nat, k as nat);
            }
            high = high / 2;
            k = k + 1;
        }
        let unit: u128 = power_of_two(k);
        let rest: u128 = n as u128 % unit;
        proof {
            lemma_pow2_pos(k as nat);
        }
        let up = !(2 * rest < unit || (2 * rest == unit && high % 2 == 0));
        Double {
            negative,
            significand: if up {
                high + 1
            } else {
                high
            },
            exponent: exponent + k as i32,
        }
    }

    /// The double nearest to the whole number `n`.
    pub fn from_whole(n: u64) -> (r: Double)
        ensures
            r@ == Dyadic::whole(n as nat).nearest_double(),
            r.significand <= SIGNIFICAND_END,
            0 <= r.exponent <= 11,
    {
        Double::nearest(false, n, 0)
    }

    /// Whether the number is greater than zero.
    pub fn is_positive(&self) -> (r: bool)
        ensures
            r == self@.positive(),
    {
        !self.negative && self.significand > 0
    }

    /// Whether the number lies in the half-open range from zero to `bound`.
    pub fn in_range_from_zero(&self, bound: u64) -> (r: bool)
        requires
            bound > 0,
            self.exponent > i32::MIN,
        ensures
            r == self@.in_range_from_zero(bound as nat),
    {
        if self.negative && self.significand > 0 {
            return false;
        }
        let m: u128 = self.significand as u128;
        if self.exponent >= 0 {
            let k: u32 = self.exponent as u32;
            if m == 0 {
                proof {
                    assert(0 * pow2(k as nat) == 0);
                }
                true
            } else if k >= 64 {
                proof {
                    lemma_huge(m as nat, k as nat);
                }
                false
            } else {
                let unit: u128 = power_of_two(k);
                proof {
                    lemma_product_fits(m as nat, unit as nat);
                }
                m * unit < bound as u128
            }
        } else {
            let k: u32 = (-self.exponent) as u32;
            if k >= 64 {
                proof {
                    lemma_huge(bound as nat, k as nat);
                }
                true
            } else {
                let unit: u128 = power_of_two(k);
                proof {
                    lemma_product_fits(bound as nat, unit as nat);
                }
                m < bound as u128 * unit
            }
        }
    }

    /// The product with one thousand, as double arithmetic gives it.
    pub fn times_thousand(&self) -> (r: Double)
        requires
            self.significand <= SIGNIFICAND_END,
            -2000 <= self.exponent <= 2000,
        ensures
            r@ == self@.times(1000),
            r.significand <= SIGNIFICAND_END,
            self.exponent <= r.exponent <= self.exponent + 11,
    {
        Double::nearest(self.negative, self.significand * 1000, self.exponent)
    }

    /// The nearest integer, halves going away from zero, and what lies beyond `i64` going
    /// to its bounds.
    pub fn round_to_i64(&self) -> (r: i64)
        requires
            self.exponent > i32::MIN,
        ensures
            r == saturated(self@.rounded()),
    {
        let m: u128 = self.significand as u128;
        let limit: u128 = 0x1_0000_0000_0000_0000;
        let magnitude: u128 = if self.exponent >= 0 {
            let k: u32 = self.exponent as u32;
            if m == 0 {
                proof {
                    assert(0 * pow2(k as nat) == 0);
                }
                0
            } else if k >= 64 {
                proof {
                    lemma_huge(m as nat, k as nat);
                }
                limit
            } else {
                let unit: u128 = power_of_two(k);
                proof {
                    lemma_product_fits(m as nat, unit as nat);
                }
                m * unit
            }
        } else {
            let k: u32 = (-self.exponent) as u32;
            if k > 64 {
                proof {
                    lemma_vanishes(m as nat, k as nat);
                }
                0
            } else {
                let unit: u128 = power_of_two(k);
                (2 * m + unit) / (2 * unit)
            }
        };
        if self.negative {
            if magnitude >= SIGN_BIT as u128 {
                i64::MIN
            } else {
                -(magnitude as i64)
            }
        } else if magnitude >= SIGN_BIT as u128 {
            i64::MAX
        } else {
            magnitude as i64
        }
    }
}

/// A positive number times `2^k` reaches `2^64` once `k` does.
proof fn lemma_huge(n: nat, k: nat)
    requires
        n > 0,
        k >= 64,
    ensures
        n * pow2(k) >= 0x1_0000_0000_0000_0000,
{
    lemma2_to64_rest();
    lemma2_to64();
    if k > 64 {
        lemma_pow2_strictly_increases(64, k);
    }
    assert(n * pow2(k) >= pow2(k)) by (nonlinear_arith)
        requires
            n > 0,
    ;
}

/// A 64-bit number times at most `2^64` fits in 128 bits.
proof fn lemma_product_fits(a: nat, b: nat)
    requires
        a <= u64::MAX,
        b <= 0x1_0000_0000_0000_0000,
    ensures
        a * b <= u128::MAX,
{
    assert(a * b <= 0xffff_ffff_ffff_ffff * 0x1_0000_0000_0000_0000) by (nonlinear_arith)
        requires
            a <= 0xffff_ffff_ffff_ffff,
            b <= 0x1_0000_0000_0000_0000,
    ;
}

/// A 64-bit number over `2^k` is nearest to zero once `k` is past 64.
proof fn lemma_vanishes(m: nat, k: nat)
    requires
        m <= u64::MAX,
        k > 64,
    ensures
        (2 * m + pow2(k)) / (2 * pow2(k)) == 0,
{
    lemma2_to64();
    lemma_pow2_unfold(65);
    if k > 65 {
        lemma_pow2_strictly_increases(65, k);
    }
    vstd::arithmetic::div_mod::lemma_basic_div((2 * m + pow2(k)) as int, (2 * pow2(k)) as int);
}

/// A number with `k` excess bits, one or more, is at least `2^(52 + k)`.
proof fn lemma_excess_lower(n: nat)
    requires
        excess_bits(n) > 0,
    ensures
        n >= LEADING_BIT * pow2(excess_bits(n)),
    decreases n,
{
    let k = excess_bits(n);
    lemma_pow2_unfold(k);
    lemma2_to64();
    if k > 1 {
        lemma_excess_lower(n / 2);
        assert(n >= LEADING_BIT * pow2(k)) by (nonlinear_arith)
            requires
                n / 2 >= LEADING_BIT * pow2((k - 1) as nat),
                pow2(k) == 2 * pow2((k - 1) as nat),
        ;
    }
}

/// A number with `k` excess bits is below `2^(53 + k)`.
proof fn lemma_excess_upper(n: nat)
    ensures
        n < SIGNIFICAND_END * pow2(excess_bits(n)),
    decreases n,
{
    let k = excess_bits(n);
    lemma2_to64();
    if k > 0 {
        lemma_pow2_unfold(k);
        lemma_excess_upper(n / 2);
        assert(n < SIGNIFICAND_END * pow2(k)) by (nonlinear_arith)
            requires
                n / 2 < SIGNIFICAND_END * pow2((k - 1) as nat),
                pow2(k) == 2 * pow2((k - 1) as nat),
        ;
    }
}

/// Rounding to a double keeps 53 bits of precision and moves by no more than half of the last
/// one; of two doubles that are as near it takes the one with the even significand.
pub proof fn law_nearest_double(x: Dyadic)
    ensures
        ({
            let d = x.nearest_double();
            let excess = excess_bits(x.significand);
            let unit = pow2(excess);
            &&& d.negative == x.negative
            &&& d.exponent == x.exponent + excess
            &&& d.significand <= SIGNIFICAND_END
            &&& excess > 0 ==> d.significand >= LEADING_BIT
            &&& excess == 0 ==> d == x
            &&& x.significand < 0x20_0000_0000_0000 * unit
            &&& excess > 0 ==> 0x10_0000_0000_0000 * unit <= x.significand
            &&& -(unit as int) <= 2 * (d.significand * unit - x.significand) <= unit
            &&& (2 * (d.significand * unit - x.significand) == unit || 2 * (x.significand
                - d.significand * unit) == unit) ==> d.significand % 2 == 0
        }),
{
    let n = x.significand;
    let excess = excess_bits(n);
    let unit = pow2(excess);
    let below = n / unit;
    let rest = n % unit;
    lemma_pow2_pos(excess);
    lemma2_to64();
    lemma_excess_upper(n);
    lemma_fundamental_div_mod(n as int, unit as int);
    assert(n == unit * below + rest && 0 <= rest < unit);
    assert(below < SIGNIFICAND_END) by (nonlinear_arith)
        requires
            n < SIGNIFICAND_END * unit,
            n == unit * below + rest,
            0 <= rest,
            unit > 0,
    ;
    if excess > 0 {
        lemma_excess_lower(n);
        assert(below >= LEADING_BIT) by (nonlinear_arith)
            requires
                n >= LEADING_BIT * unit,
                n == unit * below + rest,
                rest < unit,
                unit > 0,
        ;
    } else {
        assert(unit * below == below) by (nonlinear_arith)
            requires
                unit == 1,
        ;
    }
    assert(below * unit == unit * below) by (nonlinear_arith);
    assert((below + 1) * unit == unit * below + unit) by (nonlinear_arith);
}

/// The integer that a number is rounded to differs from it by no more than a half, and a
/// whole number is rounded to itself.
pub proof fn law_rounded_is_nearest(x: Dyadic)
    ensures
        x.exponent >= 0 ==> x.rounded_magnitude() == x.significand * pow2(x.exponent as nat),
        x.exponent < 0 ==> {
            let unit = pow2((-x.exponent) as nat);
            -(unit as int) <= 2 * (x.significand - x.rounded_magnitude() * unit) < unit
        },
        x.negative ==> x.rounded() == -(x.rounded_magnitude() as int),
        !x.negative ==> x.rounded() == x.rounded_magnitude(),
{
    if x.exponent < 0 {
        let unit = pow2((-x.exponent) as nat);
        let r = x.rounded_magnitude();
        let rest = (2 * x.significand + unit) % (2 * unit);
        lemma_pow2_pos((-x.exponent) as nat);
        lemma_fundamental_div_mod((2 * x.significand + unit) as int, (2 * unit) as int);
        assert(2 * x.significand + unit == (2 * unit) * r + rest);
        assert((2 * unit) * r == 2 * (r * unit)) by (nonlinear_arith);
    }
}

/// `n` units and half a unit more, over a unit, is `n` and a rest.
proof fn lemma_units(n: nat, unit: nat)
    requires
        unit > 0,
    ensures
        (2 * (n * unit) + unit) / (2 * unit) == n,
{
    assert(2 * (n * unit) + unit == n * (2 * unit) + unit) by (nonlinear_arith);
    vstd::arithmetic::div_mod::lemma_fundamental_div_mod_converse(
        (2 * (n * unit) + unit) as int,
        (2 * unit) as int,
        n as int,
        unit as int,
    );
}

/// A number that is an integer is rounded to that integer.
pub proof fn law_integer_is_rounded_to_itself(x: Dyadic, n: int)
    requires
        x.is_integer(n),
    ensures
        x.rounded() == n,
{
    let magnitude: nat = if n < 0 {
        (-n) as nat
    } else {
        n as nat
    };
    if x.exponent < 0 {
        let unit = pow2((-x.exponent) as nat);
        lemma_pow2_pos((-x.exponent) as nat);
        lemma_units(magnitude, unit);
    }
}

/// An integer times a factor is exact in double arithmetic as long as the product is below
/// `2^52`.
pub proof fn law_small_product_is_exact(x: Dyadic, n: nat, factor: nat)
    requires
        x.is_integer(n as int),
        n * factor < LEADING_BIT,
        factor > 0,
    ensures
        x.times(factor).is_integer((n * factor) as int),
{
    let product = x.significand * factor;
    let excess = excess_bits(product);
    let whole = n * factor;
    lemma2_to64();
    lemma_pow2_pos(excess);
    if whole == 0 {
        assert(n == 0) by (nonlinear_arith)
            requires
                n * factor == 0,
                factor > 0,
        ;
    }
    if x.exponent >= 0 {
        let unit = pow2(x.exponent as nat);
        lemma_pow2_pos(x.exponent as nat);
        assert(product * unit == whole) by (nonlinear_arith)
            requires
                product == x.significand * factor,
                x.significand * unit == n,
                whole == n * factor,
        ;
        assert(product <= whole) by (nonlinear_arith)
            requires
                product * unit == whole,
                unit > 0,
        ;
        assert(product as int / 1 == product);
    } else {
        let k = (-x.exponent) as nat;
        let unit = pow2(k);
        lemma_pow2_pos(k);
        assert(product == whole * unit) by (nonlinear_arith)
            requires
                product == x.significand * factor,
                x.significand == n * unit,
                whole == n * factor,
        ;
        if excess == 0 {
            assert(product as int / 1 == product);
        } else {
            let last = pow2(excess);
            lemma_excess_lower(product);
            assert(unit > last) by (nonlinear_arith)
                requires
                    whole * unit >= LEADING_BIT * last,
                    whole < LEADING_BIT,
                    last > 0,
            ;
            if excess > k {
                lemma_pow2_strictly_increases(k, excess);
            }
            let rest = pow2((k - excess) as nat);
            lemma_pow2_adds(excess, (k - excess) as nat);
            assert(product == (whole * rest) * last) by (nonlinear_arith)
                requires
                    product == whole * unit,
                    unit == last * rest,
            ;
            vstd::arithmetic::div_mod::lemma_fundamental_div_mod_converse(
                product as int,
                last as int,
                (whole * rest) as int,
                0,
            );
        }
    }
}

/// The bit pattern of a double is its sign bit, eleven bits of exponent and fifty-two of fraction.
/// It stands for no finite number if the exponent is all ones; with an exponent of zero for the
/// fraction times `2^-1074`; and otherwise for the fraction with a leading bit before it, times two
/// to the power of the exponent less 1075.
pub proof fn law_bit_patterns(bits: u64, negative: bool, exponent: nat, fraction: nat)
    requires
        exponent < 0x800,
        fraction < 0x10_0000_0000_0000,
        bits == (if negative {
            0x8000_0000_0000_0000int
        } else {
            0
        }) + exponent * 0x10_0000_0000_0000 + fraction,
    ensures
        is_finite(bits) <==> exponent != 0x7ff,
        double_value(bits).negative == negative,
        exponent == 0 ==> double_value(bits).significand == fraction,
        exponent == 0 ==> double_value(bits).exponent == -1074,
        exponent > 0 ==> double_value(bits).significand == 0x10_0000_0000_0000 + fraction,
        exponent > 0 ==> double_value(bits).exponent == exponent - 1075,
{
}

/// A double is greater than zero if it is not negative and its significand is not zero.
pub proof fn law_positive(x: Dyadic)
    ensures
        x.positive() <==> !x.negative && x.significand != 0,
{
}

/// A number lies between zero and a bound if it is not negative, a zero with a sign aside, and its
/// whole part is less than the bound.
pub proof fn law_range_from_zero(x: Dyadic, bound: nat)
    ensures
        x.in_range_from_zero(bound) <==> (x.negative ==> x.significand == 0) && (
        if x.exponent >= 0 {
            x.significand * pow2(x.exponent as nat) < bound
        } else {
            x.significand / pow2((-x.exponent) as nat) < bound
        }),
{
    if x.exponent < 0 {
        let unit = pow2((-x.exponent) as nat);
        let whole = x.significand / unit;
        let rest = x.significand % unit;
        lemma_pow2_pos((-x.exponent) as nat);
        lemma_fundamental_div_mod(x.significand as int, unit as int);
        assert(whole < bound <==> x.significand < bound * unit) by (nonlinear_arith)
            requires
                x.significand == unit * whole + rest,
                0 <= rest < unit,
        ;
    }
}

/// The nearest `i64` to an integer is that integer, or the bound that it lies beyond.
pub proof fn law_saturated(n: int)
    ensures
        -0x8000_0000_0000_0000 <= n <= 0x7fff_ffff_ffff_ffff ==> saturated(n) == n,
        n < -0x8000_0000_0000_0000 ==> saturated(n) == -0x8000_0000_0000_0000,
        n > 0x7fff_ffff_ffff_ffff ==> saturated(n) == 0x7fff_ffff_ffff_ffff,
{
}

/// A product is the double nearest to the exact one, and a whole number is the integer that it was
/// made of.
pub proof fn law_product(x: Dyadic, factor: nat)
    ensures
        x.times(factor) == (Dyadic {
            negative: x.negative,
            significand: x.significand * factor,
            exponent: x.exponent,
        }).nearest_double(),
        Dyadic::whole(factor).is_integer(factor as int),
{
    lemma2_to64();
    assert(factor * pow2(0) == factor) by (nonlinear_arith)
        requires
            pow2(0) == 1,
    ;
}

/// A double that was taken apart means what its parts say.
pub proof fn law_parts_of_a_double(d: Double)
    ensures
        d@.negative == d.negative,
        d@.significand == d.significand,
        d@.exponent == d.exponent,
{
}

}
